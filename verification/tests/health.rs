use dsh_tools::health::{
    dsh_version, find_runtime, health_checks, health_command, health_usage, names_plugin,
    package_version, plugin_main, profile_nm, program_package, run_health_check,
    run_upgrade_status, runtime_candidates, tail_file, upgrade_logs, Health, HealthCommand,
    PluginDir, Upgrade,
};
use dsh_tools::json::{compact, parse};
use dsh_tools::pitfalls::{
    cmd_pitfall_add, cmd_pitfall_query, load_pitfalls, pitfall_add_args, pitfall_query,
    pitfall_query_args, pitfalls_path, recorded_json, slug, AddPlan,
};

fn he_all(v: &[&str]) -> Vec<String> {
    v.iter().map(|s| s.to_string()).collect()
}

fn he_some(s: &str) -> Option<String> {
    Some(s.to_string())
}

#[test]
fn places_of_the_runtime() {
    let c = runtime_candidates();
    assert_eq!(find_runtime(&[false, true, true]), c[1]);
    assert_eq!(find_runtime(&[]), c[0]);
    assert_eq!(find_runtime(&[false, false, true]), "/Users/coreyleung/CLD/dsh-runtime/runtime");
    assert_eq!(profile_nm("/h"), "/h/.dsh/profiles/web/node_modules");
    assert_eq!(program_package("/r"), "/r/node_modules/@deepseek-ai/dsh/package.json");
    assert_eq!(pitfalls_path("/h"), "/h/dsh-collab/docs/pitfalls/pitfalls.json");
    assert_eq!(upgrade_logs("/h")[3], "/h/.cld/logs/crash-reason.log");
}

#[test]
fn versions_of_the_program() {
    assert_eq!(dsh_version(&he_some("{\"version\":\"1.2\"}")), "1.2");
    assert_eq!(dsh_version(&he_some("{}")), "?");
    assert_eq!(dsh_version(&he_some("{")), "MISSING");
    assert_eq!(dsh_version(&None), "MISSING");
    assert_eq!(package_version(&Some(parse("{\"version\":3}").unwrap())), "?");
    assert_eq!(plugin_main(&he_some("{}")), he_some("lib/index.js"));
    assert_eq!(plugin_main(&he_some("{\"main\":\"m.js\"}")), he_some("m.js"));
    assert_eq!(plugin_main(&None), None);
    assert!(names_plugin("dsh-plugin-x"));
    assert!(!names_plugin("plugin-x"));
}

#[test]
fn the_end_of_a_log() {
    assert_eq!(tail_file(&he_some("a\n\n b \nc\n"), 2), he_all(&[" b ", "c"]));
    assert_eq!(tail_file(&he_some("a"), 2), he_all(&["a"]));
    assert_eq!(tail_file(&None, 2), he_all(&["(无日志)"]));
    assert!(tail_file(&he_some(" \n"), 2).is_empty());
}

fn he_plugin(name: &str) -> PluginDir {
    PluginDir {
        name: name.to_string(),
        package: he_some("{\"version\":\"1\"}"),
        main_exists: true,
    }
}

fn he_health() -> Health {
    Health {
        runtime: "/r".to_string(),
        package: he_some("{\"version\":\"4.0\"}"),
        plugins: vec![
            PluginDir { name: "other".to_string(), package: None, main_exists: false },
            he_plugin("dsh-plugin-a"),
            he_plugin("dsh-plugin-agent-way"),
            he_plugin("dsh-plugin-central-inbox"),
            he_plugin("dsh-plugin-bus-bridge"),
        ],
        bridge_answers: true,
        log_exists: true,
        log: he_some("x\ninject OK"),
        bus_exists: true,
    }
}

#[test]
fn all_is_well() {
    let v = run_health_check(&he_health(), "T");
    assert_eq!(
        compact(&v),
        "{\"all_ok\":true,\"checks\":[{\"detail\":\"4.0\",\"name\":\"dsh 版本\",\"ok\":true},{\"detail\":\"v1 main=ok\",\"name\":\"dsh-plugin-a\",\"ok\":true},{\"detail\":\"v1 main=ok\",\"name\":\"dsh-plugin-agent-way\",\"ok\":true},{\"detail\":\"v1 main=ok\",\"name\":\"dsh-plugin-central-inbox\",\"ok\":true},{\"detail\":\"v1 main=ok\",\"name\":\"dsh-plugin-bus-bridge\",\"ok\":true},{\"detail\":\"连接正常\",\"name\":\"SSE 8803 事件桥\",\"ok\":true},{\"detail\":\"inject OK\",\"name\":\"central-inbox 活动\",\"ok\":true},{\"detail\":\"agent-bus.json 存在\",\"name\":\"agentBus 总线\",\"ok\":true}],\"dsh_version\":\"4.0\",\"plugins_found\":4,\"runtime\":\"/r\",\"ts\":\"T\"}"
    );
}

#[test]
fn what_is_wrong_is_seen() {
    let mut h = he_health();
    h.plugins.truncate(3);
    h.plugins.push(PluginDir {
        name: "dsh-plugin-central-inbox".to_string(),
        package: he_some("{"),
        main_exists: true,
    });
    h.bridge_answers = false;
    h.log_exists = false;
    h.bus_exists = false;
    h.package = None;
    let (c, n) = health_checks(&h);
    assert_eq!(n, 2);
    let got: Vec<String> = c.iter().map(|x| format!("{} {} {}", x.name, x.ok, x.detail)).collect();
    assert_eq!(
        got,
        he_all(&[
            "dsh 版本 false MISSING",
            "dsh-plugin-a true v1 main=ok",
            "dsh-plugin-agent-way true v1 main=ok",
            "dsh-plugin-central-inbox false v? main=MISSING",
            "dsh-plugin-central-inbox false 核心插件缺失",
            "dsh-plugin-bus-bridge false 核心插件缺失",
            "SSE 8803 事件桥 false 无监听（黑板未运行或 SSE 桥未启）",
            "central-inbox 活动 false 日志不存在（central-inbox 未运行）",
            "agentBus 总线 false agent-bus.json 缺失",
        ])
    );
    assert!(!run_health_check(&h, "T").flag_at("all_ok"));
    let mut idle = he_health();
    idle.log = he_some("nothing\nhere");
    assert!(!run_health_check(&idle, "T").flag_at("all_ok"));
    idle.log = None;
    assert_eq!(health_checks(&idle).0[6].detail, "(无日志)");
}

#[test]
fn a_core_plugin_that_is_not_there_fails() {
    for name in ["dsh-plugin-agent-way", "dsh-plugin-central-inbox", "dsh-plugin-bus-bridge"] {
        let mut h = he_health();
        h.plugins.retain(|p| p.name != name);
        let (c, n) = health_checks(&h);
        assert_eq!(n, 3);
        let failed: Vec<String> =
            c.iter().filter(|x| !x.ok).map(|x| format!("{} {}", x.name, x.detail)).collect();
        assert_eq!(failed, vec![format!("{} 核心插件缺失", name)]);
        assert!(!run_health_check(&h, "T").flag_at("all_ok"));
    }
}

#[test]
fn the_state_of_an_upgrade() {
    let u = Upgrade {
        package: None,
        sandbox: he_some("1\n2\n3\n4"),
        stress: None,
        cld_log: he_some(""),
        crash_reason: None,
        gate_exists: true,
        pitfalls: he_some("{\"items\":[1,2]}"),
    };
    assert_eq!(
        compact(&run_upgrade_status(&u, "T")),
        "{\"dsh_version\":\"MISSING\",\"logs\":{\"cld_log\":[],\"crash_reason\":[\"(无日志)\"],\"sandbox\":[\"2\",\"3\",\"4\"],\"stress\":[\"(无日志)\"]},\"pitfalls_count\":2,\"restart_gate_available\":true,\"ts\":\"T\"}"
    );
}

#[test]
fn health_commands() {
    assert!(health_command(&[]) == HealthCommand::Usage);
    assert!(health_command(&he_all(&["health-check"])) == HealthCommand::Check);
    assert!(health_command(&he_all(&["upgrade-status"])) == HealthCommand::Upgrade);
    assert!(health_command(&he_all(&["pitfall", "query"])) == HealthCommand::PitfallQuery);
    assert!(health_command(&he_all(&["pitfall", "add"])) == HealthCommand::PitfallAdd);
    assert!(health_command(&he_all(&["pitfall"])) == HealthCommand::PitfallUsage);
    assert!(health_command(&he_all(&["x"])) == HealthCommand::Unknown);
    assert_eq!(health_usage().len(), 5);
}

#[test]
fn names_of_pitfalls() {
    assert_eq!(slug("Fix: the/BIG  bug!"), "fix-the-big-bug");
    assert_eq!(slug("--a--b--"), "a-b");
    assert_eq!(slug("中文"), "");
    assert_eq!(slug("中 文"), "");
    assert_eq!(slug("中A/b:9 é"), "a-b-9");
    assert_eq!(slug(&slug("A  B: C")), slug("A  B: C"));
}

#[test]
fn pitfalls_are_found() {
    let data = "{\"items\":[{\"id\":\"1\",\"title\":\"Port Taken\",\"severity\":\"P1\"},{\"id\":\"2\",\"fix\":\"port moved\",\"severity\":\"p2\"},{\"title\":\"else\"}]}";
    let hits = |v: &[&str]| {
        let q = pitfall_query_args(&he_all(v));
        pitfall_query(&parse(data).unwrap(), &q).uint_at("count").unwrap()
    };
    assert_eq!(hits(&[]), 3);
    assert_eq!(hits(&["PORT"]), 2);
    assert_eq!(hits(&["port", "--level", "P2"]), 1);
    assert_eq!(hits(&["else", "--tag", "port"]), 2);
    assert_eq!(hits(&["--level", "p1"]), 1);
    assert_eq!(
        cmd_pitfall_query(&he_all(&["zzz"]), &he_some(data)),
        "{\n  \"count\": 0,\n  \"hits\": []\n}"
    );
    let many = format!("{{\"items\":[{}]}}", vec!["{}"; 25].join(","));
    let r = pitfall_query(&parse(&many).unwrap(), &pitfall_query_args(&[]));
    assert_eq!(r.uint_at("count"), Some(25));
    assert_eq!(r.items("hits").map(|h| h.len()), Some(20));
}

#[test]
fn pitfalls_are_recorded() {
    let p = pitfall_add_args(&he_all(&["My Bug", "--level", "P1", "--detail", "d"]));
    let (rec, text) = match cmd_pitfall_add(&p, &None, "2026-01-01") {
        AddPlan::Store { recorded, text } => (recorded, text),
        _ => panic!("the pitfall can be recorded"),
    };
    assert_eq!(rec.id, "2026-01-01-my-bug");
    assert_eq!(
        compact(&parse(&text).unwrap()),
        "{\"items\":[{\"date\":\"2026-01-01\",\"fix\":\"\",\"id\":\"2026-01-01-my-bug\",\"lesson\":\"\",\"phenomenon\":\"d\",\"root_cause\":\"\",\"severity\":\"P1\",\"sop_update\":\"\",\"title\":\"My Bug\"}],\"version\":1}"
    );
    assert!(recorded_json(&rec, true).flag_at("ok"));
    let q = pitfall_add_args(&he_all(&["中文", "--date", "D", "--severity", "P3"]));
    match cmd_pitfall_add(&q, &Some(text.clone()), "2026-01-01") {
        AddPlan::Store { recorded, .. } => {
            assert_eq!(recorded.id, "D-P2");
            assert_eq!(recorded.data.items("items").map(|i| i.len()), Some(2));
        }
        _ => panic!("the pitfall can be recorded"),
    }
    match cmd_pitfall_add(&pitfall_add_args(&[]), &None, "T") {
        AddPlan::Usage { line } => assert_eq!(
            line,
            "用法: dsh-tools pitfall add <title> [--level P1|P2|P3] [--date YYYY-MM-DD] [--detail 坑/根因/修复]"
        ),
        _ => panic!("there is no title"),
    }
    assert!(matches!(
        cmd_pitfall_add(&p, &he_some("{\"items\":1}"), "T"),
        AddPlan::NoList
    ));
    assert_eq!(compact(&load_pitfalls(&None)), "{\"items\":[],\"version\":1}");
}
