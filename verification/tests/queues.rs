use dsh_tools::condense::{
    compared_text, condense_args, dedupe, dedupe_report, embed_request, group_entry, is_large,
    largest_groups, llm, llm_request, load_queued, place, post_note, post_summary, prompt_for, scan_report, size_order,
};
use dsh_tools::drain::{
    agent_bus_path, drain_args, drain_file, drain_report, keep_fits, parse_ts, pile_report,
    pile_size, read_bus, scan_output, DrainMode, DrainOutcome,
};
use dsh_tools::json::{compact, parse, Json};
use dsh_tools::stamp::{is_recent, seconds_from, seconds_of, window_start};

const QU_BUS: &str = "{\"threads\":[{\"id\":\"t1\",\"messages\":[{\"status\":\"queued\",\"from\":\"b\",\"to\":\"x\",\"text\":\"one\",\"time\":100},{\"status\":\"delivered\",\"from\":\"a\",\"text\":\"two\"}]},{\"messages\":[{\"status\":\"queued\",\"from\":\"b\",\"text\":\" one \",\"time\":\"1970-01-01T00:16:40Z\"}]},{\"x\":1}]}";

fn qu_all(v: &[&str]) -> Vec<String> {
    v.iter().map(|s| s.to_string()).collect()
}

#[test]
fn times_of_messages() {
    assert_eq!(parse_ts("12"), 12);
    assert_eq!(parse_ts("1970-01-01T00:01:00Z"), 60);
    assert_eq!(parse_ts("1970-01-01T08:00:00+08:00"), 0);
    assert_eq!(parse_ts("2026-08-30T23:00:00"), 1_788_130_800);
    assert_eq!(parse_ts("1970-01-02T00:00:01"), 86_401);
    assert_eq!(parse_ts("x"), 0);
    assert_eq!(seconds_from("x", Some(5)), Some(5));
    assert_eq!(seconds_from("7", Some(5)), Some(7));
    assert_eq!(seconds_from("x", None), None);
    assert_eq!(seconds_of(&parse("9").unwrap()), Some(9));
    assert_eq!(seconds_of(&parse("-9").unwrap()), None);
    assert_eq!(seconds_of(&parse("\"1970-01-01T00:01:00Z\"").unwrap()), Some(60));
    assert_eq!(window_start(1, 3600), 0);
    assert_eq!(window_start(1, 3601), 1);
    assert_eq!(window_start(u64::MAX, 3601), 0);
    assert!(is_recent(Some(5), 5));
    assert!(!is_recent(Some(4), 5));
    assert!(is_recent(None, 5));
    assert_eq!(agent_bus_path("/h"), "/h/.dsh/agent-bus.json");
}

#[test]
fn the_pile_is_counted() {
    let data = parse(QU_BUS).unwrap();
    assert_eq!(pile_size(&data), (3, 2));
    let r = pile_report(&data, 9, "66.7%");
    assert_eq!(
        compact(&r),
        "{\"delivered\":1,\"queued\":2,\"queued_ratio\":\"66.7%\",\"sample_queued\":[\"one\",\" one \"],\"top_senders\":[{\"count\":2,\"from\":\"b\"},{\"count\":1,\"from\":\"a\"}],\"total_threads\":3,\"ts\":9}"
    );
    let l = scan_output(DrainMode::Scan, &r);
    assert_eq!(
        l,
        qu_all(&[
            "══ queue-drain 堆积扫描 ══",
            "  线程总数: 3",
            "  queued: 2 | delivered: 1",
            "  堆积比例: \"66.7%\"",
            "  TOP 发送方:",
            "    · \"b\" (2 条)",
            "    · \"a\" (1 条)",
            "  queued 示例:",
            "    · one",
            "    ·  one ",
            "  建议: --drain 抽走 queued（备份保留）| --keep 7d 保留近期",
        ])
    );
    assert_eq!(scan_output(DrainMode::Summary, &parse("{\"a\":1}").unwrap()), qu_all(&["{\n  \"a\": 1\n}"]));
}

#[test]
fn the_senders_of_most_come_first() {
    let msgs = |from: &str, n: usize| vec![format!("{{\"from\":\"{}\"}}", from); n].join(",");
    let all: Vec<String> =
        [("a", 1), ("b", 2), ("c", 3), ("d", 1), ("e", 1), ("f", 9)].iter().map(|(s, n)| msgs(s, *n)).collect();
    let data = parse(&format!("{{\"threads\":[{{\"messages\":[{}]}}]}}", all.join(","))).unwrap();
    let r = pile_report(&data, 9, "0%");
    let top: Vec<String> = r
        .items("top_senders")
        .unwrap()
        .iter()
        .map(|s| format!("{}{}", s.text_or("from", ""), s.uint_at("count").unwrap()))
        .collect();
    assert_eq!(top, qu_all(&["f9", "c3", "b2", "a1", "d1"]));
}

#[test]
fn draining_takes_the_old_messages() {
    let text = Ok(QU_BUS.to_string());
    let done = match drain_file(&text, "/h", Some(1), 86_400 + 500) {
        DrainOutcome::Done(d) => d,
        _ => panic!("the bus can be drained"),
    };
    assert_eq!(done.backup_path, "/h/.dsh/queue-drain-backups/agent-bus-86900.json");
    assert_eq!(compact(&parse(&done.backup).unwrap()), compact(&parse(QU_BUS).unwrap()));
    let bus = parse(&done.bus).unwrap();
    assert_eq!(pile_size(&bus), (3, 1));
    assert_eq!(
        compact(&bus.at("queue_drain")),
        "{\"archive\":\"~/.dsh/queue-drain-backups/agent-bus-86900.json\",\"drained_count\":1,\"last_drain_ts\":86900}"
    );
    assert_eq!(
        drain_report(&done.report),
        qu_all(&[
            "══ queue-drain 抽走 ══",
            "  抽走 queued: 1",
            "  备份: \"/h/.dsh/queue-drain-backups/agent-bus-86900.json\"",
            "  归档示例: · one",
            "  \"已归档（备份保留可恢复），queued 清理完成。旧线程可后续归档收敛。\"",
        ])
    );
    match drain_file(&Ok(done.bus), "/h", Some(1), 86_400 + 500) {
        DrainOutcome::Done(d) => assert_eq!(compact(&d.report.at("drained")), "0"),
        _ => panic!("the bus can be drained again"),
    }
    match drain_file(&text, "/h", None, 5) {
        DrainOutcome::Done(d) => assert_eq!(pile_size(&parse(&d.bus).unwrap()), (3, 0)),
        _ => panic!("the bus can be drained"),
    }
}

#[test]
fn a_bus_that_cannot_be_drained() {
    match drain_file(&Err("gone".to_string()), "/h", None, 5) {
        DrainOutcome::Failed(v) => assert_eq!(compact(&v), "{\"error\":\"read fail: gone\"}"),
        _ => panic!("there is no file"),
    }
    match drain_file(&Ok("{".to_string()), "/h", None, 5) {
        DrainOutcome::Failed(v) => assert_eq!(compact(&v), "{\"error\":\"parse fail\"}"),
        _ => panic!("there is no value"),
    }
    assert!(matches!(drain_file(&Ok("[]".to_string()), "/h", None, 5), DrainOutcome::Impossible));
    assert!(matches!(
        drain_file(&Ok("{}".to_string()), "/h", Some(1), 5),
        DrainOutcome::Impossible
    ));
    assert!(keep_fits(Some(1), 86_400));
    assert!(!keep_fits(Some(1), 86_399));
    assert!(read_bus(&Ok("{}".to_string())).is_ok());
}

#[test]
fn drain_arguments() {
    let a = drain_args(&qu_all(&["--scan", "--drain", "--keep", "7d"]));
    assert!(a.mode == DrainMode::Drain);
    assert_eq!(a.keep, Some(7));
    assert_eq!(drain_args(&qu_all(&["--keep", "7"])).keep, Some(7));
    assert_eq!(drain_args(&qu_all(&["--keep", "d"])).keep, None);
    assert!(drain_args(&[]).mode == DrainMode::Scan);
    assert!(drain_args(&qu_all(&["--summary"])).mode == DrainMode::Summary);
}

#[test]
fn repeats_are_dropped() {
    let ms = load_queued(&parse(QU_BUS).unwrap());
    assert_eq!(ms.len(), 2);
    assert_eq!((ms[0].from.as_str(), ms[0].to.as_str(), ms[1].to.as_str()), ("b", "x", "?"));
    assert_eq!(dedupe(&ms), (vec![0], 1));
    assert_eq!(
        scan_report(&ms),
        qu_all(&[
            "══ queue-condense 扫描 ══",
            "  queued: 2",
            "  精确重复: 1",
            "  建议: --condense 去重→聚类→归纳→写黑板 | --dry-run 干跑",
        ])
    );
    assert_eq!(scan_report(&vec![])[2], "  无堆积");
    assert_eq!(
        dedupe_report(2, 1, true),
        qu_all(&[
            "══ queue-condense 管道 ══",
            "  原始 queued: 2",
            "  去重后: 1（-1 重复）",
            "[dry-run] 跳过 embed/聚类/归纳/写黑板",
        ])
    );
    assert_eq!(dedupe_report(0, 0, false), qu_all(&["无 queued 消息"]));
}

#[test]
fn like_messages_are_put_together() {
    let mut g: Vec<Vec<usize>> = Vec::new();
    place(&mut g, &vec![], 0);
    place(&mut g, &vec![false], 1);
    place(&mut g, &vec![false, true], 2);
    place(&mut g, &vec![true, true], 3);
    place(&mut g, &vec![false, true], 4);
    assert_eq!(g, vec![vec![0, 3], vec![1, 2, 4]]);
    assert_eq!(size_order(&g), vec![1, 0]);
    assert!(is_large(&g[1]));
    assert!(!is_large(&g[0]));
    let seven: Vec<Vec<usize>> = (0..7).map(|i| vec![i]).collect();
    assert_eq!(largest_groups(&seven), vec![0, 1, 2, 3, 4]);
}

#[test]
fn groups_are_summed_up() {
    let bus = "{\"threads\":[{\"messages\":[{\"status\":\"queued\",\"from\":\"a\",\"to\":\"b\",\"text\":\"p\"},{\"status\":\"queued\",\"from\":\"c\",\"text\":\"q\"},{\"status\":\"queued\",\"text\":\"r\"}]}]}";
    let ms = load_queued(&parse(bus).unwrap());
    let g = vec![0, 1, 2];
    assert_eq!(
        prompt_for(&ms, &g),
        "以下是一簇语义相近的消息（3 条），归纳：①主题（一句话）②核心要点（2-3条）③是否仍需处理（历史/重复/已过时）\n消息：\n- [\"a\"→\"b\"] p\n- [\"c\"→\"?\"] q\n- [\"?\"→\"?\"] r"
    );
    assert_eq!(
        compact(&group_entry(1, &ms, &g, &Some(Ok("s".to_string())))),
        "{\"count\":3,\"id\":1,\"samples\":[\"p\",\"q\",\"r\"],\"summary\":\"s\"}"
    );
    assert_eq!(
        group_entry(1, &ms, &g, &Some(Err("e".to_string()))).text_or("summary", ""),
        "(归纳失败: e)"
    );
    assert_eq!(
        group_entry(2, &ms, &vec![1], &None).text_or("summary", ""),
        "(小簇 1 条) q"
    );
    assert_eq!(compared_text(&ms[0]), "p");
}

#[test]
fn asking_the_models() {
    assert_eq!(
        compact(&llm_request("p", Json::Uint(1))),
        "{\"model\":\"qwen2.5:3b\",\"options\":{\"num_predict\":400,\"temperature\":1},\"prompt\":\"p\",\"stream\":false}"
    );
    assert_eq!(compact(&embed_request("t")), "{\"input\":[\"t\"],\"model\":\"bge-m3\"}");
    assert_eq!(llm(&Ok(parse("{\"response\":\"r\"}").unwrap())), Ok("r".to_string()));
    assert_eq!(llm(&Ok(parse("{}").unwrap())), Err("generate 无结果".to_string()));
    assert_eq!(llm(&Err("e".to_string())), Err("e".to_string()));
}

#[test]
fn the_summary_goes_to_the_board() {
    let p = post_summary(7, 5, 4, vec![Json::object()], &None);
    assert_eq!(p.key, "data/ops/queue-condense/condense-7");
    assert_eq!(
        compact(&p.value),
        "{\"ts\":7,\"value\":{\"summary\":{\"clusters\":[{}],\"source\":5,\"ts\":7,\"unique\":4},\"target\":null,\"ts\":7,\"type\":\"queue-condense\"}}"
    );
    let n = post_note("session-long", 7, 5, 2);
    assert_eq!(n.key, "notes/session-/queue-condense-7");
    assert_eq!(
        compact(&n.value),
        "{\"ts\":7,\"value\":{\"body\":\"看黑板 data/ops/queue-condense/condense-7（5条→2簇汇总，一次性处理）\",\"from\":\"queue-condense\",\"to\":\"session-long\",\"ts\":7}}"
    );
    let a = condense_args(&qu_all(&["--dry-run", "--to", "s", "--scan"]));
    assert!(!a.condense);
    assert!(a.dry);
    assert_eq!(a.to, Some("s".to_string()));
    assert!(condense_args(&qu_all(&["--condense"])).condense);
    assert!(condense_args(&qu_all(&["--dry-run"])).condense);
}
