use dsh_tools::channel::{
    audit, audit_args, audit_findings, error_report, extract_target, file_audit, is_single,
};
use dsh_tools::gate::{
    count_pages, gate_args, gate_postings, gate_verdict, light_name, local_disk, server_state,
    Light, Memory, Pages, Probe, Resources,
};
use dsh_tools::json::{compact, parse};
use dsh_tools::ledger::{
    asked_repo, known_repos, ledger_args, repo_candidates, scan_repo, sort_entries,
};
use dsh_tools::noise::{
    cmd_report, cmd_scan, file_report, noise_findings, noise_report_args, noise_scan_args,
    noise_sources, noise_usage, read_command, read_noise, report_place, report_refusal,
    NoiseCommand,
};

fn au_all(v: &[&str]) -> Vec<String> {
    v.iter().map(|s| s.to_string()).collect()
}

#[test]
fn filing_a_report() {
    let a = noise_report_args(&au_all(&["--from", "sender-long", "--to", "me", "--why", "no"]));
    assert!(report_refusal(&a).is_none());
    assert!(report_refusal(&noise_report_args(&au_all(&["--from", "x"]))).is_some());
    assert_eq!(report_place(5, "sender-long"), "data/audit/noise-reports/n-5-sender-l");
    assert_eq!(
        compact(&file_report(&a, 5)),
        "{\"ts\":5,\"value\":{\"from_sender\":\"sender-long\",\"msg_key\":\"\",\"note\":\"R018 反馈链：收到与自己无关的 send 消息，反馈 HR（司库）捕获网治理\",\"receiver\":\"me\",\"ts\":5,\"why_irrelevant\":\"no\"}}"
    );
    let ok = cmd_report(&a, &Ok(()));
    assert_eq!(ok.code, 0);
    assert_eq!(
        ok.lines,
        au_all(&["✅ 已反馈 HR: data/audit/noise-reports/ (sender=sender-long, why=no)"])
    );
    let bad = cmd_report(&a, &Err("e".to_string()));
    assert_eq!((bad.code, bad.lines), (1, au_all(&["❌ 反馈失败: e"])));
}

#[test]
fn senders_are_ranked() {
    let e = |k: &str, s: &str, w: &str| {
        format!("\"data/audit/{}\":{{\"value\":{{\"value\":{{\"from_sender\":\"{}\",\"why_irrelevant\":\"{}\"}}}}}}", k, s, w)
    };
    let list = format!(
        "{{\"list\":{{{},{},{},{},\"data/audit/other\":{{}},\"data/audit/noise-reports/z\":{{}}}}}}",
        e("noise-reports/a", "s", "1"),
        e("noise-reports/b", "t", "2"),
        e("noise-reports/c", "t", "3"),
        e("noise-reports/d", "t", "4")
    );
    let rs = read_noise(&parse(&list).unwrap());
    assert_eq!(rs.len(), 5);
    let src = noise_sources(&rs);
    let got: Vec<(String, u64)> = src.iter().map(|s| (s.sender.clone(), s.count)).collect();
    assert_eq!(
        got,
        vec![("t".to_string(), 3), ("?".to_string(), 1), ("s".to_string(), 1)]
    );
    assert_eq!(src[0].reasons, au_all(&["2", "3"]));
    let scan = noise_scan_args(&au_all(&["--hours", "48"]));
    let o = cmd_scan(&rs, &scan, 9);
    assert_eq!(
        o.lines,
        au_all(&[
            "══ noise-scan HR 捕获网（48h）══",
            "  无关消息反馈: 5 条",
            "  🔴 \"t\" (3 次反馈)",
            "      - 2",
            "      - 3",
            "  🟡 \"?\" (1 次反馈)",
            "      - ",
            "  🟡 \"s\" (1 次反馈)",
            "      - 1",
            "  🔴 疑似系统性污染（≥3 次反馈），建议 HR 介入治理",
            "  \"收到 5 条无关消息反馈，疑似污染源 TOP: \\\"t\\\"×3, \\\"?\\\"×1, \\\"s\\\"×1\"",
        ])
    );
    let v = noise_findings(&rs, 9, 48);
    assert_eq!(v.uint_at("total_reports"), Some(5));
    assert!(v.flag_at("pollution_suspected"));
    assert_eq!(v.items("top_sources").map(|t| t.len()), Some(3));
}

#[test]
fn no_reports_at_all() {
    let rs = read_noise(&parse("{}").unwrap());
    let o = cmd_scan(&rs, &noise_scan_args(&[]), 9);
    assert_eq!(
        o.lines,
        au_all(&[
            "══ noise-scan HR 捕获网（24h）══",
            "  无关消息反馈: 0 条",
            "  ✅ 无反馈",
            "  \"无反馈（通道卫生正常）\"",
        ])
    );
    let j = cmd_scan(&rs, &noise_scan_args(&au_all(&["--json"])), 9);
    assert_eq!(
        compact(&parse(&j.lines[0]).unwrap()),
        "{\"pollution_suspected\":false,\"summary\":\"无反馈（通道卫生正常）\",\"top_sources\":[],\"total_reports\":0,\"ts\":9,\"window_hours\":24}"
    );
    assert!(read_command("noise-scan") == NoiseCommand::Scan);
    assert!(read_command("report") == NoiseCommand::Report);
    assert!(read_command("x") == NoiseCommand::Unknown);
    assert_eq!(noise_usage().len(), 3);
}

#[test]
fn one_receiver_or_many() {
    assert!(is_single("i9"));
    for t in ["mac-mini", "ALL nodes", "coordinator", "i9+mbp", "a,b", "a & b", "a and b", "session-1", "中枢", "agent-bus"] {
        assert!(!is_single(t));
    }
    assert_eq!(extract_target(&parse("{\"to\":\"\",\"target\":\"t\"}").unwrap()), Some("t".to_string()));
    assert_eq!(extract_target(&parse("{\"value\":{\"to\":\"u\"}}").unwrap()), Some("u".to_string()));
    assert_eq!(extract_target(&parse("{\"to\":7}").unwrap()), None);
    assert_eq!(extract_target(&parse("[]").unwrap()), None);
}

#[test]
fn messages_in_the_wrong_channel() {
    let data = parse(
        "{\"list\":{\"notes/collab/a\":{\"ts\":\"T\",\"value\":{\"to\":\"i9\",\"from\":\"f\"}},\"notes/collab/b\":{\"value\":{\"to\":\"all\"}},\"notes/x\":{\"value\":{\"to\":\"i9\"}},\"notes/collab/c\":{\"value\":{\"target\":\"mbp\",\"ts\":\"U\"}}}}",
    )
    .unwrap();
    let a = audit(&data, 24, 9);
    assert_eq!(a.scanned, 3);
    assert_eq!(a.violations.len(), 2);
    assert_eq!((a.violations[0].key.as_str(), a.violations[0].ts.as_str()), ("notes/collab/a", "T"));
    assert_eq!((a.violations[1].from.as_str(), a.violations[1].ts.as_str()), ("?", "U"));
    let o = dsh_tools::channel::run(&a, 24, false, 9);
    assert_eq!(
        o.lines,
        au_all(&[
            "══ channel-audit 通道卫生巡检（24h 窗口）══",
            "  扫描 collab 消息: 3",
            "  违规数: 2",
            "  ⚠️ [\"WARN\"] \"notes/collab/a\" → target=\"i9\"",
            "     from=\"f\" | \"应写 notes/<node>/ 定向通道或 data/<域>/ 命名空间，collab 仅限全局公告（R002）\"",
            "  ⚠️ [\"WARN\"] \"notes/collab/c\" → target=\"mbp\"",
            "     from=\"?\" | \"应写 notes/<node>/ 定向通道或 data/<域>/ 命名空间，collab 仅限全局公告（R002）\"",
            "  报告: \"发现 2 条定向消息误走广播\"",
        ])
    );
    let (k, v) = file_audit(&a, true, 9).unwrap();
    assert_eq!(k, "data/audit/channel-violations/v-9-2");
    assert_eq!(v.at("value").uint_at("violation_count"), Some(2));
    assert!(file_audit(&a, false, 9).is_none());
    let clean = audit(&parse("{}").unwrap(), 24, 9);
    assert!(file_audit(&clean, true, 9).is_none());
    assert_eq!(
        compact(&audit_findings(&clean, 9)),
        "{\"scanned_collab_msgs\":0,\"summary\":\"通道卫生 ✅ 无违规\",\"ts\":9,\"violation_count\":0,\"violations\":[]}"
    );
    assert_eq!(dsh_tools::channel::run(&clean, 24, false, 9).lines[3], "  ✅ 通道卫生正常");
    let j = dsh_tools::channel::run(&clean, 24, true, 9);
    assert_eq!(compact(&parse(&j.lines[0]).unwrap()), compact(&audit_findings(&clean, 9)));
}

#[test]
fn an_audit_looks_back_over_its_window() {
    let data = parse(
        "{\"list\":{\"notes/collab/a\":{\"ts\":99999,\"value\":{\"to\":\"i9\"}},\"notes/collab/b\":{\"ts\":100000,\"value\":{\"to\":\"i9\"}},\"notes/collab/c\":{\"value\":{\"to\":\"i9\",\"ts\":\"1970-01-01T00:00:01Z\"}},\"notes/collab/d\":{\"value\":{\"to\":\"mac-mini\"}}}}",
    )
    .unwrap();
    let keys = |hours: u64| -> Vec<String> {
        audit(&data, hours, 103_600).violations.iter().map(|v| v.key.clone()).collect()
    };
    assert_eq!(keys(1), au_all(&["notes/collab/b"]));
    assert_eq!(keys(2), au_all(&["notes/collab/a", "notes/collab/b"]));
    assert_eq!(keys(1000), au_all(&["notes/collab/a", "notes/collab/b", "notes/collab/c"]));
}

#[test]
fn a_scan_looks_back_over_its_window() {
    let data = parse(
        "{\"list\":{\"data/audit/noise-reports/a\":{\"value\":{\"ts\":1,\"value\":{\"from_sender\":\"s\",\"ts\":99999}}},\"data/audit/noise-reports/b\":{\"value\":{\"ts\":100000,\"value\":{\"from_sender\":\"t\"}}}}}",
    )
    .unwrap();
    let rs = read_noise(&data);
    assert_eq!((rs[0].ts, rs[1].ts), (Some(99_999), Some(100_000)));
    let lines = |hours: &str| {
        cmd_scan(&rs, &noise_scan_args(&au_all(&["--hours", hours])), 103_600).lines
    };
    assert_eq!(lines("1")[1], "  无关消息反馈: 1 条");
    assert_eq!(lines("1")[2], "  🟡 \"t\" (1 次反馈)");
    assert_eq!(lines("2")[1], "  无关消息反馈: 2 条");
    assert_eq!(lines("0")[1], "  无关消息反馈: 0 条");
}

#[test]
fn the_window_of_an_audit() {
    assert_eq!(audit_args(&[]).hours, Some(24));
    assert_eq!(audit_args(&au_all(&["--hours", "3", "--days", "2"])).hours, Some(48));
    assert_eq!(audit_args(&au_all(&["--days", "2", "--hours", "3"])).hours, Some(3));
    assert_eq!(audit_args(&au_all(&["--days", "x"])).hours, Some(24));
    assert_eq!(audit_args(&au_all(&["--days", "18446744073709551615"])).hours, None);
    let a = audit_args(&au_all(&["--no-write", "--json"]));
    assert!(!a.write);
    assert!(a.json);
    let e = error_report("x");
    assert_eq!((e.code, e.lines), (1, au_all(&["{\"error\":\"x\"}"])));
}

fn au_resources(avail: u64, short: bool, probe: Probe) -> Resources {
    Resources {
        avail_gb: avail,
        total_gb: 460,
        memory: Memory { short, text: "12".to_string(), percent: 12 },
        server: "h".to_string(),
        probe,
    }
}

#[test]
fn disk_and_memory_are_read() {
    let df = "Filesystem 1024-blocks Used Available Capacity\n/dev/disk 482344960 1 104857600 4% /\n";
    assert_eq!(local_disk(df), (100, 460));
    assert_eq!(local_disk("one line"), (0, 0));
    assert_eq!(local_disk("a\nb c d x"), (0, 0));
    let vm = "Mach (page size of 16384 bytes)\nPages free:  100.\nPages inactive: 20.\nPages free: 7.\n";
    assert_eq!(count_pages(vm, Pages::Free), Some("7".to_string()));
    assert_eq!(count_pages(vm, Pages::Inactive), Some("20".to_string()));
    assert_eq!(count_pages(vm, Pages::Total), None);
}

#[test]
fn lights_of_the_resources() {
    let m = |short: bool| Memory { short, text: "12".to_string(), percent: 12 };
    let (l, t) = gate_verdict(20, &m(false), "h", &Probe::Banner { rtt_ms: 3 });
    assert!(l == Light::Green);
    assert_eq!(t, "资源充足，可执行");
    let (l, t) = gate_verdict(19, &m(false), "h", &Probe::Banner { rtt_ms: 3 });
    assert!(l == Light::Yellow);
    assert_eq!(t, "资源偏紧: 本机磁盘仅 19GB 可用");
    let (l, t) = gate_verdict(50, &m(true), "h", &Probe::Unreachable);
    assert!(l == Light::Red);
    assert_eq!(t, "资源不足: 本机内存余量 12%; 服务器 \"h\" 不可达");
    assert_eq!(light_name(l), "red");
    let (_, t) = gate_verdict(50, &m(false), "h", &Probe::Silent);
    assert_eq!(t, "资源偏紧: 服务器 SSH 响应异常（高负载）");
}

#[test]
fn the_state_of_the_resources() {
    let x = au_resources(10, true, Probe::Banner { rtt_ms: 3 });
    let o = dsh_tools::gate::run(&x, false, 9);
    assert_eq!(o.code, 2);
    assert_eq!(
        o.lines,
        au_all(&[
            "══ load-gate 资源总控门 ══",
            "  本机磁盘: 10G 可用 / 460G 总量",
            "  本机内存余量: 12%",
            "  服务器 h: 可达 (ssh_ok=true)",
            "  ══ 判定: [🔴] 资源不足: 本机磁盘仅 10GB 可用; 本机内存余量 12% ══",
            "  建议: \"红灯：禁止部署/大任务——等资源恢复（负载回落/清理磁盘）\"",
        ])
    );
    let y = au_resources(100, false, Probe::Silent);
    let o = dsh_tools::gate::run(&y, true, 9);
    assert_eq!(o.code, 1);
    assert_eq!(
        compact(&parse(&o.lines[0]).unwrap()),
        "{\"advice\":\"黄灯：资源偏紧——小任务可执行，大文件分批\",\"gate\":\"load-gate v0.1\",\"local\":{\"disk_avail_gb\":100,\"disk_total_gb\":460,\"mem_free_pct\":12},\"msg\":\"资源偏紧: 服务器 SSH 响应异常（高负载）\",\"server\":{\"host\":\"h\",\"note\":\"TCP 通但 SSH banner 超时——可能高负载\",\"reachable\":true,\"ssh_ok\":false},\"ts\":9,\"verdict\":\"yellow\"}"
    );
    let z = au_resources(100, false, Probe::Banner { rtt_ms: 3 });
    assert_eq!(dsh_tools::gate::run(&z, false, 9).code, 0);
    let p = gate_postings(&z, 9);
    assert_eq!(p[0].0, "data/ops/resource-gate/status-9");
    assert_eq!(p[1].0, "data/ops/resource-gate/current");
    assert_eq!(compact(&p[0].1), compact(&p[1].1));
    assert_eq!(
        compact(&server_state("h", &Probe::Unreachable)),
        "{\"host\":\"h\",\"note\":\"TCP 22 不可达\",\"reachable\":false}"
    );
    let a = gate_args(&au_all(&["--report", "--server", "s", "--check"]));
    assert!(!a.report);
    assert_eq!(a.server, "s");
    assert_eq!(gate_args(&[]).server, "129.204.12.142");
}

#[test]
fn repositories_are_known() {
    let c = repo_candidates("/h");
    assert_eq!(c.len(), 7);
    assert_eq!(c[0], "/h/dsh-collab/rust-tools");
    assert_eq!(
        known_repos("/h", &[false, true, false, false, true]),
        au_all(&["/h/dsh-collab/rust-bridge", "/h/dsh-plugin-agent-bus"])
    );
    assert_eq!(asked_repo("/h", "x"), "/h/x");
    assert_eq!(asked_repo("/h", "/x"), "/x");
    let a = ledger_args(&au_all(&["--json", "--repo", "r"]));
    assert!(a.json);
    assert_eq!(a.repo, Some("r".to_string()));
}

#[test]
fn the_ledger_is_sorted_by_name() {
    let e = vec![
        scan_repo("/h/zeta", &Some("v1".to_string()), &Some("abc".to_string()), &Some("2026-01-01 10:00 msg".to_string())),
        scan_repo("/h/alpha/", &None, &None, &None),
    ];
    let s = sort_entries(&e);
    assert_eq!(s[0].name, "alpha");
    assert_eq!((s[0].tag.as_str(), s[0].commit.as_str(), s[0].last.as_str()), ("无tag", "?", ""));
    let o = dsh_tools::ledger::run("G", &e, false);
    assert_eq!(o.code, 0);
    assert_eq!(o.lines[2], "  仓库数: 2");
    assert_eq!(o.lines[4], format!("  {:<28} {:<12} {}", "仓库", "tag", "最近提交"));
    assert_eq!(o.lines[5], format!("  {}", "-".repeat(70)));
    assert_eq!(o.lines[6], format!("  {:<28} {:<12} {}", "alpha", "无tag", ""));
    assert_eq!(o.lines[7], format!("  {:<28} {:<12} {}", "zeta", "v1", "2026-01-01"));
    let j = dsh_tools::ledger::run("G", &e, true);
    assert_eq!(
        compact(&parse(&j.lines[0]).unwrap()),
        "{\"generated\":\"G\",\"repos\":[{\"commit\":\"?\",\"git\":true,\"last_commit\":\"\",\"name\":\"alpha\",\"tag\":\"无tag\"},{\"commit\":\"abc\",\"git\":true,\"last_commit\":\"2026-01-01 10:00 msg\",\"name\":\"zeta\",\"tag\":\"v1\"}]}"
    );
}
