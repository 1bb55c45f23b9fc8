use dsh_tools::bus::{
    bus_outbox, bus_receive, bus_reply, bus_send, bus_status, gen_task_id, list_files,
    list_ids, outbox_dir, outbox_path, parse_iso_ms, read_entries, read_json, read_query,
    latest_entries, receive_task, reply_task, reply_to, send_task, status_task, sweep_expired,
    task_path, tasks_dir, Config, Entry, QueueFile,
};
use dsh_tools::bus_http::{
    authorized, body_length, decide, decide_bytes, has_head, has_request, health_answer, must_wait, not_found_answer, poll_answer,
    read_body, read_enough, response_text, route, send_json, timeout_answer, unauthorized_answer,
    wait_over, Route, Step,
};
use dsh_tools::clock::{millis_of, now_compact, now_iso, now_local, now_ms, now_ts, today, utc_millis_of};
use dsh_tools::json::{compact, parse, Json};

fn bs_cfg() -> Config {
    Config {
        port: 8791,
        host: "0.0.0.0".to_string(),
        token: String::new(),
        queue_dir: "/q".to_string(),
        allowed_from: vec![],
        allowed_actions: vec![],
    }
}

fn bs_entry(id: &str, text: &str) -> Entry {
    Entry { id: id.to_string(), value: Some(parse(text).unwrap()) }
}

#[test]
fn places_of_the_queue() {
    let c = bs_cfg();
    assert_eq!(tasks_dir(&c), "/q/tasks");
    assert_eq!(outbox_dir(&c), "/q/outbox");
    assert_eq!(task_path(&c, "t"), "/q/tasks/t.json");
    assert_eq!(outbox_path(&c, "t"), "/q/outbox/t.json");
    assert_eq!(gen_task_id(255, 16), "task-ff-10");
    let names: Vec<String> = ["b.json", "a.json", "x.txt", "c.json.json"].iter().map(|s| s.to_string()).collect();
    assert_eq!(list_files(&names), vec!["a.json", "b.json", "c.json.json"]);
    assert_eq!(list_ids(&names), vec!["a", "b", "c"]);
}

#[test]
fn times_are_read() {
    assert_eq!(parse_iso_ms("1970-01-02T00:00:01.500Z"), Ok(86_401_000));
    assert_eq!(parse_iso_ms("2026-08-27T01:23:45.123Z"), Ok(1_787_793_825_000));
    assert_eq!(parse_iso_ms("2026-13-01T00:00:00Z"), Err("bad date".to_string()));
    assert_eq!(parse_iso_ms("2026-02-30T00:00:00Z"), Err("bad date".to_string()));
    assert_eq!(parse_iso_ms("2026-08-27"), Err("bad date".to_string()));
    assert_eq!(parse_iso_ms("x-08-27T01:02:03"), Err("year".to_string()));
    assert_eq!(parse_iso_ms("2026-08-27T01:02:x"), Err("sec".to_string()));
    assert_eq!(utc_millis_of(2000, 2, 29, 0, 0, 0), Some(951_782_400_000));
    assert_eq!(utc_millis_of(2001, 2, 29, 0, 0, 0), None);
    assert_eq!(utc_millis_of(2000, 1, 1, 24, 0, 0), None);
    assert_eq!(millis_of(Some((2, 3_000_000))), 2003);
    assert_eq!(millis_of(None), 0);
}

#[test]
fn the_clock_runs() {
    assert!(now_ms() > 1_700_000_000_000);
    assert!(now_ts() > 1_700_000_000);
    assert_eq!(today().len(), 10);
    assert_eq!(now_local().len(), 19);
    assert_eq!(now_compact().len(), 15);
    let iso = now_iso();
    assert_eq!(iso.len(), 24);
    assert!(iso.ends_with('Z'));
    let read = parse_iso_ms(&iso).unwrap();
    let now = now_ms();
    assert!(read <= now && now - read < 60_000);
}

#[test]
fn a_task_goes_through_its_states() {
    let c = bs_cfg();
    let body = parse("{\"from\":\"a\",\"action\":\"run\",\"payload\":[1]}").unwrap();
    let sent = send_task(&c, &body, "t1", "2026-01-01T00:00:00.000Z");
    assert_eq!(compact(&sent.reply), "{\"ok\":true,\"status\":\"queued\",\"task_id\":\"t1\"}");
    assert_eq!(sent.files.len(), 1);
    assert_eq!(sent.files[0].path, "/q/tasks/t1.json");
    assert_eq!(
        compact(&sent.files[0].value),
        "{\"action\":\"run\",\"created_at\":\"2026-01-01T00:00:00.000Z\",\"finished_at\":null,\"from\":\"a\",\"payload\":[1],\"reply\":null,\"started_at\":null,\"status\":\"queued\",\"target\":\"any\",\"task_id\":\"t1\",\"ttl_sec\":3600}"
    );
    let queue = vec![bs_entry("t1", &compact(&sent.files[0].value))];
    let got = receive_task(&c, &queue, "i9", 0, "S");
    assert_eq!(
        compact(&got.reply),
        "{\"ok\":true,\"task\":{\"action\":\"run\",\"created_at\":\"2026-01-01T00:00:00.000Z\",\"from\":\"a\",\"payload\":[1],\"target\":\"any\",\"task_id\":\"t1\"}}"
    );
    assert_eq!(got.files[0].value.text_or("status", ""), "processing");
    assert_eq!(got.files[0].value.text_or("started_at", ""), "S");
    let again = receive_task(&c, &vec![bs_entry("t1", &compact(&got.files[0].value))], "i9", 0, "S2");
    assert_eq!(compact(&again.reply), "{\"ok\":true,\"task\":null}");
    assert!(again.files.is_empty());
    let answer = parse("{\"task_id\":\"t1\",\"ok\":true,\"result\":{\"x\":1}}").unwrap();
    assert_eq!(reply_task(&answer), "t1");
    let done = reply_to(&c, &answer, &Some(got.files[0].value.copy()), "F");
    assert_eq!(compact(&done.reply), "{\"ok\":true,\"status\":\"done\",\"task_id\":\"t1\"}");
    assert_eq!(done.files.len(), 2);
    assert_eq!(done.files[1].path, "/q/outbox/t1.json");
    assert_eq!(
        compact(&done.files[1].value),
        "{\"error\":null,\"finished_at\":\"F\",\"from\":\"any\",\"ok\":true,\"result\":{\"x\":1},\"task_id\":\"t1\",\"to\":\"a\"}"
    );
    let late = reply_to(&c, &answer, &Some(done.files[0].value.copy()), "G");
    assert_eq!(compact(&late.reply), "{\"errmsg\":\"任务状态 done 不可回复\",\"ok\":false}");
    assert!(late.files.is_empty());
}

#[test]
fn what_may_not_be_sent_is_refused() {
    let mut c = bs_cfg();
    let refuse = |c: &Config, t: &str| compact(&bus_send(c, &parse(t).unwrap(), 1).reply);
    assert_eq!(refuse(&c, "{\"from\":\"a\"}"), "{\"errmsg\":\"from 与 action 必填\",\"ok\":false}");
    c.allowed_from = vec!["b".to_string()];
    assert_eq!(
        refuse(&c, "{\"from\":\"a\",\"action\":\"r\"}"),
        "{\"errmsg\":\"来源 a 不在白名单\",\"ok\":false}"
    );
    c.allowed_from = vec!["a".to_string()];
    c.allowed_actions = vec!["s".to_string()];
    assert_eq!(
        refuse(&c, "{\"from\":\"a\",\"action\":\"r\"}"),
        "{\"errmsg\":\"动作 r 不在白名单\",\"ok\":false}"
    );
    let ok = bus_send(&c, &parse("{\"from\":\"a\",\"action\":\"s\"}").unwrap(), 255);
    assert!(ok.reply.flag_at("ok"));
    assert!(ok.reply.text_or("task_id", "").ends_with("-ff"));
}

#[test]
fn replies_need_their_task() {
    let c = bs_cfg();
    let none = bus_reply(&c, &parse("{}").unwrap(), &None);
    assert_eq!(compact(&none.reply), "{\"errmsg\":\"task_id 必填\",\"ok\":false}");
    let gone = bus_reply(&c, &parse("{\"task_id\":\"z\"}").unwrap(), &None);
    assert_eq!(compact(&gone.reply), "{\"errmsg\":\"任务 z 不存在\",\"ok\":false}");
}

#[test]
fn tasks_go_to_their_target() {
    let c = bs_cfg();
    let queue = vec![
        bs_entry("a", "{\"status\":\"queued\",\"target\":\"mbp\"}"),
        Entry { id: "b".to_string(), value: None },
        bs_entry("c", "{\"status\":\"queued\",\"target\":\"i9\"}"),
    ];
    let got = bus_receive(&c, &queue, "i9");
    assert_eq!(got.files[0].path, "/q/tasks/c.json");
    let any = bus_receive(&c, &queue, "");
    assert_eq!(any.files[0].path, "/q/tasks/a.json");
}

#[test]
fn a_late_task_is_not_handed_out() {
    let c = bs_cfg();
    let late = "{\"status\":\"queued\",\"ttl_sec\":10,\"created_at\":\"1970-01-01T00:00:00.000Z\"}";
    let live = "{\"status\":\"queued\",\"ttl_sec\":20,\"created_at\":\"1970-01-01T00:00:00.000Z\"}";
    let queue = vec![bs_entry("a", late), bs_entry("b", live)];
    let got = receive_task(&c, &queue, "", 15_000, "N");
    assert_eq!(got.reply.at("task").text_or("task_id", ""), "b");
    let paths: Vec<&str> = got.files.iter().map(|f| f.path.as_str()).collect();
    assert_eq!(paths, vec!["/q/tasks/a.json", "/q/outbox/a.json", "/q/tasks/b.json"]);
    assert_eq!(got.files[0].value.text_or("status", ""), "failed");
    assert_eq!(got.files[2].value.text_or("status", ""), "processing");
    let none = receive_task(&c, &queue, "", 25_000, "N");
    assert_eq!(compact(&none.reply), "{\"ok\":true,\"task\":null}");
    assert_eq!(none.files.len(), 4);
    let now = bus_receive(&c, &queue, "");
    assert_eq!(compact(&now.reply), "{\"ok\":true,\"task\":null}");
}

#[test]
fn the_status_closes_late_tasks_first() {
    let c = bs_cfg();
    let late = "{\"status\":\"queued\",\"ttl_sec\":10,\"created_at\":\"1970-01-01T00:00:00.000Z\"}";
    let queue = vec![bs_entry("a", late), bs_entry("b", late)];
    let outbox = vec!["a.json".to_string(), "z.json".to_string()];
    let s = status_task(&c, &queue, &outbox, 10_001, "N");
    assert_eq!(s.files.len(), 4);
    assert_eq!(s.reply.uint_at("outbox_count"), Some(3));
    assert_eq!(s.reply.at("stats").uint_at("failed"), Some(2));
    assert_eq!(s.reply.at("stats").uint_at("queued"), Some(0));
    let early = status_task(&c, &queue, &outbox, 10_000, "N");
    assert!(early.files.is_empty());
    assert_eq!(early.reply.uint_at("outbox_count"), Some(2));
    assert_eq!(early.reply.at("stats").uint_at("queued"), Some(2));
}

#[test]
fn a_sent_task_waits_for_its_time_to_live() {
    let c = bs_cfg();
    let body = parse("{\"from\":\"a\",\"action\":\"s\",\"ttl_sec\":5}").unwrap();
    let sent = bus_send(&c, &body, 7);
    let task = compact(&sent.files[0].value);
    let made = parse_iso_ms(&sent.files[0].value.text_or("created_at", "")).unwrap();
    let e = vec![bs_entry("x", &task)];
    assert!(sweep_expired(&c, &e, made + 5_000, "N").is_empty());
    assert_eq!(sweep_expired(&c, &e, made + 5_001, "N").len(), 2);
}

#[test]
fn late_tasks_are_closed() {
    let c = bs_cfg();
    let t = "{\"status\":\"queued\",\"ttl_sec\":10,\"created_at\":\"1970-01-01T00:00:00.000Z\",\"from\":\"a\",\"target\":\"b\"}";
    let e = vec![bs_entry("x", t)];
    assert!(sweep_expired(&c, &e, 10_000, "N").is_empty());
    let w = sweep_expired(&c, &e, 10_001, "N");
    assert_eq!(w.len(), 2);
    assert_eq!(w[0].path, "/q/tasks/x.json");
    assert_eq!(w[0].value.text_or("status", ""), "failed");
    assert_eq!(w[0].value.text_or("error", ""), "TTL expired");
    assert_eq!(
        compact(&w[1].value),
        "{\"error\":\"TTL expired\",\"finished_at\":\"N\",\"from\":\"a\",\"ok\":false,\"result\":null,\"task_id\":\"x\",\"to\":\"b\"}"
    );
    let done = vec![bs_entry("x", "{\"status\":\"done\",\"created_at\":\"1970-01-01T00:00:00Z\"}")];
    assert!(sweep_expired(&c, &done, u64::MAX, "N").is_empty());
    let undated = vec![bs_entry("x", "{\"status\":\"queued\"}")];
    assert!(sweep_expired(&c, &undated, u64::MAX, "N").is_empty());
}

#[test]
fn the_outbox_is_asked() {
    let c = bs_cfg();
    let e = vec![
        bs_entry("a", "{\"to\":\"x\",\"finished_at\":\"2026-01-01T00:00:00Z\"}"),
        bs_entry("b", "{\"to\":\"y\",\"finished_at\":\"2026-01-02T00:00:00Z\"}"),
    ];
    let ids = |q: &str| {
        let (v, gone) = bus_outbox(&c, &e, &read_query(q));
        (v.items("results").map(|r| r.len()).unwrap_or(0), gone)
    };
    assert_eq!(ids(""), (2, vec![]));
    assert_eq!(ids("task_id=b").0, 1);
    assert_eq!(ids("from=x").0, 1);
    assert_eq!(ids("since=2026-01-02T00:00:00Z").0, 1);
    assert_eq!(ids("since=nonsense").0, 2);
    let (n, gone) = ids("consume=1&task_id=a");
    assert_eq!(n, 1);
    assert_eq!(gone, vec!["/q/outbox/a.json"]);
    let (v, _) = bus_outbox(&c, &e, &read_query("consume=true"));
    assert_eq!(v.uint_at("consumed"), Some(2));
}

#[test]
fn the_status_counts_the_latest_tasks() {
    let all: Vec<Entry> = (0..12).map(|i| bs_entry(&format!("t{:02}", i), "{}")).collect();
    let latest = latest_entries(&all);
    assert_eq!(latest.len(), 10);
    assert_eq!(latest[0].id, "t11");
    assert_eq!(latest[9].id, "t02");
    let e = vec![
        bs_entry("a", "{\"status\":\"odd\"}"),
        bs_entry("b", "{\"status\":\"done\",\"from\":\"f\"}"),
    ];
    let outbox = vec!["x.json".to_string(), "y.json".to_string(), "z.json".to_string()];
    let status = bus_status(&bs_cfg(), &e, &outbox);
    assert!(status.files.is_empty());
    assert_eq!(
        compact(&status.reply),
        "{\"ok\":true,\"outbox_count\":3,\"recent\":[{\"action\":null,\"created_at\":null,\"from\":\"f\",\"status\":\"done\",\"target\":null,\"task_id\":\"b\"},{\"action\":null,\"created_at\":null,\"from\":null,\"status\":\"odd\",\"target\":null,\"task_id\":\"a\"}],\"stats\":{\"done\":1,\"failed\":0,\"processing\":0,\"queued\":0}}"
    );
}

#[test]
fn files_are_read_as_entries() {
    let f = |id: &str, t: Option<&str>| QueueFile { id: id.to_string(), text: t.map(|x| x.to_string()) };
    let e = read_entries(&vec![f("a", Some("{}")), f("b", Some("{")), f("c", None)]);
    assert!(e[0].value.is_some());
    assert!(e[1].value.is_none());
    assert!(e[2].value.is_none());
    assert!(read_json(&None).is_none());
}

#[test]
fn requests_are_routed() {
    let mut c = bs_cfg();
    assert!(matches!(decide(&c, "GET"), Step::Drop));
    match decide(&c, "POST /bus/send?wait=1&a=b HTTP/1.1\r\nHost: x\r\n\r\n{\"from\":\"a\"}") {
        Step::Serve { route, request } => {
            assert!(route == Route::Send);
            assert_eq!(request.path, "/bus/send");
            assert_eq!(request.query.get("wait"), Some("1".to_string()));
            assert_eq!(compact(&read_body(&request.body)), "{\"from\":\"a\"}");
        }
        _ => panic!("the request is served"),
    }
    assert!(route("GET", "/health") == Route::Health);
    assert!(route("POST", "/health") == Route::NotFound);
    c.token = "secret-word".to_string();
    assert!(matches!(decide(&c, "GET /health HTTP/1.1\r\n\r\n"), Step::Unauthorized));
    assert!(authorized("GET / HTTP/1.1\r\nX-WEBHOOK-token: secret-word\r\n", "secret-word"));
    assert!(!authorized("GET / HTTP/1.1\r\nOther: secret-word\r\n", "secret-word"));
    assert!(!authorized("GET / HTTP/1.1\r\nX-Webhook-Token: xsecret-wordx\r\n", "secret-word"));
    assert!(!authorized("POST / HTTP/1.1\r\nA: b\r\n\r\nX-Webhook-Token: secret-word\r\n", "secret-word"));
    assert!(authorized("GET / HTTP/1.1\r\nX-Webhook-Token:  secret-word \r\n\r\n", "secret-word"));
    assert!(authorized("GET / HTTP/1.1\r\n\r\n", ""));
}

#[test]
fn answers_are_written() {
    assert_eq!(
        response_text(200, "中"),
        "HTTP/1.1 200 OK\r\nContent-Type: application/json\r\nContent-Length: 3\r\nConnection: close\r\n\r\n中"
    );
    assert_eq!(
        send_json(401, &unauthorized_answer()),
        "HTTP/1.1 401 Unauthorized\r\nContent-Type: application/json\r\nContent-Length: 36\r\nConnection: close\r\n\r\n{\"errmsg\":\"unauthorized\",\"ok\":false}"
    );
    assert_eq!(compact(&not_found_answer()), "{\"errmsg\":\"not found\",\"ok\":false}");
    assert_eq!(
        compact(&health_answer(&bs_cfg(), 5)),
        "{\"ok\":true,\"queue\":\"/q\",\"service\":\"bus-bridge\",\"ts\":5}"
    );
    assert_eq!(compact(&read_body("nonsense")), "{}");
}

#[test]
fn heads_are_complete_or_too_long() {
    assert!(!has_head(&b"GET / HTTP/1.1\r\n".to_vec()));
    assert!(has_head(&b"GET / HTTP/1.1\r\n\r\nbody".to_vec()));
    assert_eq!(body_length("POST / HTTP/1.1\r\nCONTENT-length:  12 \r\nContent-Length: 3"), 12);
    assert_eq!(body_length("POST / HTTP/1.1\r\nContent-Length: many"), 0);
    assert_eq!(body_length("GET / HTTP/1.1"), 0);
    let late = b"POST /bus/send HTTP/1.1\r\nContent-Length: 2\r\n\r\n{".to_vec();
    assert!(has_head(&late));
    assert!(!has_request(&late));
    assert!(!read_enough(&late));
    let mut all = late.clone();
    all.push(b'}');
    assert!(has_request(&all));
    assert!(read_enough(&all));
    match decide_bytes(&bs_cfg(), &all) {
        Step::Serve { route, request } => {
            assert!(route == Route::Send);
            assert_eq!(request.body, "{}");
        }
        _ => panic!("the request is served"),
    }
    match decide_bytes(&bs_cfg(), &b"GET /\xff HTTP/1.1\r\n\r\n".to_vec()) {
        Step::Serve { request, .. } => assert_eq!(request.path, "/\u{fffd}"),
        _ => panic!("the request is served"),
    }
    assert!(!read_enough(&vec![0u8; 1_200_000]));
    assert!(read_enough(&vec![0u8; 1_200_001]));
}

#[test]
fn waiting_for_a_reply() {
    let yes = parse("{\"ok\":true}").unwrap();
    assert!(must_wait(&read_query("wait=true"), &yes));
    assert!(!must_wait(&read_query("wait=0"), &yes));
    assert!(!must_wait(&read_query("wait=1"), &Json::object()));
    assert!(!wait_over(1000, 30_999));
    assert!(wait_over(1000, 31_000));
    assert!(poll_answer("t", &None, &None).is_none());
    assert!(poll_answer("t", &Some(parse("{\"status\":\"queued\"}").unwrap()), &None).is_none());
    let a = poll_answer(
        "t",
        &Some(parse("{\"status\":\"failed\"}").unwrap()),
        &Some(parse("{\"error\":\"e\"}").unwrap()),
    )
    .unwrap();
    assert_eq!(
        compact(&a),
        "{\"error\":\"e\",\"ok\":true,\"result\":null,\"status\":\"failed\",\"task_id\":\"t\"}"
    );
    assert_eq!(
        compact(&timeout_answer("t")),
        "{\"note\":\"等待超时（30s），请 GET /bus/outbox?task_id=t 拉取\",\"ok\":true,\"status\":\"queued\",\"task_id\":\"t\"}"
    );
}
