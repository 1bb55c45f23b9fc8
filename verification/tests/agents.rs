use dsh_tools::assess::{assess_args, cmd_assess};
use dsh_tools::handoff::{
    closing_line, handoff_args, handoff_key, handoff_refusal, opening_line, pack_report,
    package_name, package_url, posting_text, postings,
};
use dsh_tools::json::{compact, parse};
use dsh_tools::messages::{
    agent_msg_args, agent_msg_key, agent_thread_args, append_thread_index, cmd_agent_thread, gate,
    is_repeat, message_path, message_refusal, message_value, plan_message, sending_report,
    thread_id, thread_place, thread_refusal, Sending,
};

fn ag_all(v: &[&str]) -> Vec<String> {
    v.iter().map(|s| s.to_string()).collect()
}

#[test]
fn messages_are_gated() {
    let long = "字".repeat(201);
    assert!(gate("i9", &"字".repeat(200)).is_none());
    let l = gate("i9", &long).unwrap();
    assert_eq!(l[0], "[agent-msg] ⚠️ 门禁：消息 201 字 > 200 且非紧急（v2.3 最短沟通规则）");
    assert_eq!(l[2], "  dsh-tools agent-msg --to i9 --text '看黑板 data/<key>（一句话提示）'");
    assert!(gate("i9", &format!("{}URGENT", long)).is_none());
    assert_eq!(
        gate("i9", &format!("{}看黑板", long)).unwrap()[0],
        "[agent-msg] ⚠️ 门禁：消息 204 字 > 200 且非紧急（v2.3 最短沟通规则）"
    );
    let a = agent_msg_args(&ag_all(&["--to", "i9"]));
    assert_eq!(message_refusal(&a).unwrap().len(), 1);
    let b = agent_msg_args(&ag_all(&["--to", "i9", "--text", "hi"]));
    assert!(message_refusal(&b).is_none());
}

#[test]
fn threads_are_named_by_the_text() {
    assert_eq!(thread_id(&Some("x-1".to_string()), "abc"), "x-1");
    assert_eq!(thread_id(&None, "ab"), "x-c3");
    assert_eq!(thread_id(&None, ""), "x-0");
    assert_eq!(
        thread_id(&None, &"a".repeat(30)),
        thread_id(&None, &"a".repeat(20))
    );
    assert_eq!(thread_place("x-1/é.中"), "data/threads/x-1_é_中");
}

#[test]
fn a_message_and_its_thread() {
    let a = agent_msg_args(&ag_all(&["--to", "i9", "--text", "hi", "--reply-to", "m"]));
    let m = message_value(&a, "mac", "x-1", 17, "T");
    assert_eq!(
        compact(&m),
        "{\"from\":\"mac\",\"from_agent\":\"dsh-tools\",\"reply_to\":\"m\",\"seq\":17,\"text\":\"hi\",\"thread\":\"x-1\",\"to\":\"i9\",\"ts\":\"T\",\"type\":\"agent-msg\"}"
    );
    assert_eq!(agent_msg_key("20260101-000000"), "agent-msg-20260101-000000");
    assert_eq!(message_path("i9", "k"), "notes/i9/k");
    let one = append_thread_index("x-1", &None, &m, "N");
    let held = parse(&format!("{{\"value\":{}}}", compact(&one))).unwrap();
    let two = append_thread_index("x-1", &Some(held), &m, "N");
    assert_eq!(two.items("messages").map(|v| v.len()), Some(2));
    assert_eq!(two.text_or("updated", ""), "N");
    let d = parse(&format!("{{\"value\":{}}}", compact(&two))).unwrap();
    assert_eq!(
        cmd_agent_thread("x-1", &Ok(d)),
        ag_all(&["线程 x-1 （2 条）:", "· [T] mac: hi", "· [T] mac: hi"])
    );
    assert_eq!(
        cmd_agent_thread("x-1", &Ok(parse("{}").unwrap())),
        ag_all(&["线程 x-1 无消息（未发过 agent-msg）"])
    );
    assert_eq!(cmd_agent_thread("x-1", &Err("e".to_string())), ag_all(&["线程 x-1 读取失败: e"]));
    assert!(thread_refusal("").is_some());
    assert!(thread_refusal(&agent_thread_args(&ag_all(&["--thread", "x-1"]))).is_none());
}

#[test]
fn a_message_is_not_sent_twice_in_ten_minutes() {
    let a = agent_msg_args(&ag_all(&["--to", "i9", "--text", "hi", "--thread", "x-1"]));
    let at = 1_000_000;
    let index = match plan_message(&a, "mac", "x-1", &None, at, "T") {
        Sending::Send { message, thread } => {
            assert_eq!(compact(&message), compact(&message_value(&a, "mac", "x-1", at, "T")));
            assert_eq!(compact(&thread), compact(&append_thread_index("x-1", &None, &message, "T")));
            thread
        }
        Sending::Repeat { .. } => panic!("the message is new"),
    };
    let held = Some(parse(&format!("{{\"value\":{}}}", compact(&index))).unwrap());
    match plan_message(&a, "mac", "x-1", &held, at + 599_999, "T") {
        Sending::Repeat { line } => {
            assert_eq!(line, "[agent-msg] 跳过: 10 分钟内已发过相同消息（thread: x-1）")
        }
        Sending::Send { .. } => panic!("the message was just sent"),
    }
    assert!(!is_repeat(&held, "mac", "x-1", "hi", at + 600_000));
    assert!(is_repeat(&held, "mac", "x-1", "hi", at));
    assert!(!is_repeat(&held, "i9", "x-1", "hi", at));
    assert!(!is_repeat(&held, "mac", "x-2", "hi", at));
    assert!(!is_repeat(&held, "mac", "x-1", "ho", at));
    assert!(!is_repeat(&None, "mac", "x-1", "hi", at));
}

#[test]
fn what_is_printed_of_a_message() {
    let a = agent_msg_args(&ag_all(&["--to", "i9", "--text", "hi"]));
    assert_eq!(
        sending_report(&a, "mac", "k", "x-1", &Ok(200)),
        ag_all(&["[agent-msg] mac → i9 (k): hi", "  thread: x-1"])
    );
    assert_eq!(
        sending_report(&a, "mac", "k", "x-1", &Ok(500))[2],
        "  ⚠️ 黑板返回 500"
    );
    assert_eq!(
        sending_report(&a, "mac", "k", "x-1", &Err("e".to_string())),
        ag_all(&["[agent-msg] 发送失败: e"])
    );
}

#[test]
fn a_handover() {
    let h = handoff_args(&ag_all(&[
        "--name", "My 任务 1", "--files", "a b", "c", "--to", "mbp", "--type", "ocr", "--desc", "d",
    ]));
    assert_eq!(h.files, ag_all(&["a", "b", "c"]));
    assert_eq!((h.to.as_str(), h.kind.as_str(), h.priority.as_str()), ("mbp", "ocr", "P2"));
    assert_eq!(handoff_key("My 任务 1"), "My1");
    assert_eq!(handoff_key("任务"), "task");
    assert_eq!(handoff_key(&"k".repeat(30)), "k".repeat(20));
    assert_eq!(package_name("a b", "S"), "a_b-S.tar.gz");
    assert_eq!(package_url("a b", "S"), "http://100.120.203.20:8801/shared/a_b-S.tar.gz");
    let p = postings(&h, "S", "N", "");
    assert_eq!(p.card.path, "tasks/mbp/queue/S-My1");
    assert_eq!(
        compact(&p.card.value),
        "{\"content\":[\"【任务】d\",\"【数据】无\",\"【排期】P2 后台。\",\"【回报】完成后写黑板 notes/mac-mini/ + 结果放 genebank /shared/。\"],\"from\":\"coordinator\",\"priority\":\"P2\",\"subject\":\"My 任务 1（P2/ocr）\",\"task_id\":\"t-My1-S\",\"to\":\"mbp\",\"ts\":\"N\",\"type\":\"ocr\"}"
    );
    assert_eq!(p.notice.path, "notes/mbp/coordinator-task-My1");
    assert_eq!(p.notice.value.text_or("subject", ""), "📋 任务：My 任务 1（P2/ocr）按你排期");
    assert_eq!(p.record.path, "data/handoffs/S-My1");
    assert_eq!(p.record.value.text_or("status", ""), "dispatched");
    assert_eq!(p.record.value.text_or("task_queue", ""), "tasks/mbp/queue/S-My1");
    assert_eq!(opening_line(&h, "N"), "[handoff] N 移交任务: My 任务 1 → mbp (P2/ocr)");
    assert_eq!(closing_line(&h, "S"), "[handoff] ✅ 完成: My 任务 1 → mbp (task_id: t-My1-S)");
    assert_eq!(posting_text("② 任务卡", "p", &Ok(200)), "  ② 任务卡: /p -> 200");
    assert_eq!(posting_text("② 任务卡", "p", &Err("e".to_string())), "  ② 任务卡失败: e");
}

#[test]
fn packing_the_files_of_a_handover() {
    let none = handoff_args(&ag_all(&["--name", "n"]));
    assert!(handoff_refusal(&none).is_none());
    assert!(handoff_refusal(&handoff_args(&[])).is_some());
    assert_eq!(pack_report(&none, "S", "/x", true), (String::new(), "  ① 无文件打包".to_string()));
    let some = handoff_args(&ag_all(&["--name", "n", "--files", "f", "--to", "i9"]));
    assert_eq!(
        pack_report(&some, "S", "/x", true).1,
        "  ① 打包: /x (URL: http://100.120.203.20:8801/shared/n-S.tar.gz)"
    );
    assert_eq!(pack_report(&some, "S", "/x", false).0, "");
}

#[test]
fn advice_on_a_source() {
    let src = assess_args(&ag_all(&["--src", "s.js", "--tool", "t"]));
    let l = cmd_assess(&src, "import '@wecom/x'\nhttp.request()");
    assert_eq!(l[1], "工具: t  | 源码: s.js  | 2 行");
    assert_eq!(l[2], "依赖分析: SDK锁定=true HTTP=true SSE=false SQLite=false");
    assert_eq!(l[3], "复杂度: 低（2 行）");
    assert_eq!(l[4], "→ 推荐: 保留原语言（官方 SDK 锁定，Rust 化成本>收益）");
    assert!(cmd_assess(&src, "sqlite")[4].starts_with("→ 推荐: Rust（纯逻辑+SQLite"));
    assert!(cmd_assess(&src, "/events")[4].starts_with("→ 推荐: Rust（HTTP/SSE"));
    assert!(cmd_assess(&src, &"\n".repeat(151))[3].starts_with("复杂度: 中"));
    assert!(cmd_assess(&src, &"\n".repeat(401))[3].starts_with("复杂度: 高"));
}

#[test]
fn advice_on_a_bottleneck() {
    let b = assess_args(&ag_all(&["--bottleneck", "REMOTE 批量"]));
    let l = cmd_assess(&b, "");
    assert_eq!(
        l[2..5].to_vec(),
        ag_all(&[
            "泛化方向建议:",
            "  · 跨设备（黑板 notes 通道 → agent-msg 模式）",
            "  · 批量化（workflow 串行/并行编排）",
        ])
    );
    let plain = assess_args(&ag_all(&["--bottleneck", "x"]));
    assert_eq!(cmd_assess(&plain, "")[3], "  · 通用化（抽象输入输出，复用黑板 KV）");
    assert_eq!(cmd_assess(&assess_args(&[]), "").len(), 2);
}
