use dsh_tools::json::{compact, parse};
use dsh_tools::workflow::{
    command_output, deadlock_report, end_line, end_workflow, estimate_tokens, execute_step,
    insert_result, next_round, parse_step, read_workflow, result_line, run_workflow, start_line,
    summary, total_tokens, workflow_of, Progress, Round, Run, StepDef, StepResult,
};

fn wf_step(id: &str, deps: &[&str]) -> StepDef {
    StepDef {
        id: id.to_string(),
        cmd: "echo".to_string(),
        args: vec![],
        depends_on: deps.iter().map(|d| d.to_string()).collect(),
        parallel: false,
        token_budget: None,
        retry: 0,
    }
}

fn wf_finished(p: Progress) -> StepResult {
    match p {
        Progress::Finished(r) => r,
        Progress::RunOnce => panic!("the step is not finished"),
    }
}

#[test]
fn parse_step_basic() {
    let v = parse("{\"id\": \"s1\", \"cmd\": \"echo\", \"args\": [\"hi\"], \"token_budget\": 1000}")
        .unwrap();
    let s = parse_step(&v);
    assert_eq!(s.id, "s1");
    assert_eq!(s.cmd, "echo");
    assert_eq!(s.args, vec!["hi"]);
    assert_eq!(s.token_budget, Some(1000));
}

#[test]
fn token_estimate() {
    let t = estimate_tokens("bb-read", &["notes/mac-mini/".to_string()]);
    assert!(t > 0, "token 估算应 > 0");
}

#[test]
fn execute_echo() {
    let s = StepDef {
        id: "t".into(),
        cmd: "echo".into(),
        args: vec!["hello".into()],
        depends_on: vec![],
        parallel: false,
        token_budget: None,
        retry: 0,
    };
    assert!(matches!(execute_step(&s, &vec![], 0), Progress::RunOnce));
    let runs = vec![Run { ok: true, output: command_output("hello\n", "") }];
    let r = wf_finished(execute_step(&s, &runs, 7));
    assert!(r.ok);
    assert!(r.output.contains("hello"));
    assert_eq!(r.output, "hello");
    assert_eq!(r.duration_ms, 7);
}

#[test]
fn token_budget_gate() {
    let s = StepDef {
        id: "t".into(),
        cmd: "echo".into(),
        args: vec!["hello".into()],
        depends_on: vec![],
        parallel: false,
        token_budget: Some(0),
        retry: 0,
    };
    let r = wf_finished(execute_step(&s, &vec![], 0));
    assert!(!r.ok);
    assert!(r.output.contains("预算超限"));
    assert_eq!(r.output, "token 预算超限: est 2 > budget 0");
    assert_eq!(r.duration_ms, 0);
}

#[test]
fn tokens_are_a_quarter_of_the_characters() {
    assert_eq!(estimate_tokens("bb-read", &["notes/mac-mini/".to_string()]), 5);
    assert_eq!(estimate_tokens("", &[]), 0);
    assert_eq!(estimate_tokens("中文", &["ab".to_string(), "c".to_string()]), 1);
}

#[test]
fn a_failing_step_is_tried_again() {
    let mut s = wf_step("r", &[]);
    s.retry = 1;
    let once = vec![Run { ok: false, output: "no".to_string() }];
    assert!(matches!(execute_step(&s, &once, 0), Progress::RunOnce));
    let twice = vec![
        Run { ok: false, output: "no".to_string() },
        Run { ok: false, output: "still no".to_string() },
    ];
    let r = wf_finished(execute_step(&s, &twice, 3));
    assert!(!r.ok);
    assert_eq!(r.output, "still no");
}

#[test]
fn output_falls_back_on_errors() {
    assert_eq!(command_output("", " oops \n"), "oops");
    assert_eq!(command_output("out", "err"), "out");
    let long = "x".repeat(600);
    assert_eq!(command_output(&long, "").len(), 500);
}

#[test]
fn steps_run_after_what_they_depend_on() {
    let steps = vec![wf_step("c", &["a", "b"]), wf_step("a", &[]), wf_step("b", &["a"])];
    let plan = run_workflow(&steps);
    assert_eq!(plan.rounds, vec![vec![1], vec![2], vec![0]]);
    assert!(plan.stuck.is_empty());
}

#[test]
fn a_circle_is_a_deadlock() {
    let steps = vec![wf_step("a", &["b"]), wf_step("b", &["a"]), wf_step("c", &[])];
    let plan = run_workflow(&steps);
    assert_eq!(plan.rounds, vec![vec![2]]);
    assert_eq!(plan.stuck, vec![0, 1]);
    let w = workflow_of(&parse("{\"name\":\"w\",\"steps\":[{\"id\":\"a\"},{\"id\":\"b\"}]}").unwrap());
    assert_eq!(
        compact(&deadlock_report(&w, &vec![0, 1])),
        "{\"error\":\"依赖死锁\",\"ok\":false,\"pending\":[\"a\",\"b\"],\"workflow\":\"w\"}"
    );
}

#[test]
fn rounds_step_by_step() {
    let steps = vec![wf_step("a", &[]), wf_step("b", &["a"])];
    match next_round(&steps, &vec![0, 1], &vec![]) {
        Round::Start { ready, still } => {
            assert_eq!(ready, vec![0]);
            assert_eq!(still, vec![1]);
        }
        _ => panic!("a step is ready"),
    }
    assert!(matches!(next_round(&steps, &vec![1], &vec![]), Round::Deadlock));
    assert!(matches!(next_round(&steps, &vec![], &vec![]), Round::Complete));
}

#[test]
fn a_workflow_that_cannot_be_read() {
    let missing = read_workflow(&Err("gone".to_string()));
    match missing {
        Err(v) => assert_eq!(compact(&v), "{\"error\":\"读文件失败: gone\"}"),
        Ok(_) => panic!("there is no file"),
    }
    match read_workflow(&Ok("{".to_string())) {
        Err(v) => assert!(compact(&v).starts_with("{\"error\":\"JSON 解析失败: EOF")),
        Ok(_) => panic!("there is no value"),
    }
    let w = match read_workflow(&Ok("{}".to_string())) {
        Ok(w) => w,
        Err(_) => panic!("an empty workflow can be read"),
    };
    assert_eq!(w.name, "workflow");
    assert!(w.steps.is_empty());
}

#[test]
fn results_are_added_up() {
    let mut v: Vec<StepResult> = Vec::new();
    let mk = |id: &str, ok: bool, tokens: u64| StepResult {
        id: id.to_string(),
        ok,
        output: "o".to_string(),
        tokens,
        duration_ms: 2,
    };
    insert_result(&mut v, mk("a", true, 3));
    insert_result(&mut v, mk("b", false, 4));
    insert_result(&mut v, mk("a", true, 5));
    assert_eq!(v.len(), 2);
    assert_eq!(total_tokens(&v), Some(9));
    assert_eq!(total_tokens(&vec![mk("x", true, u64::MAX), mk("y", true, 1)]), None);
    assert_eq!(result_line(&mk("b", false, 4)), "[workflow] ❌ step b: o (4 tokens, 2ms)");
    let w = workflow_of(&parse("{\"name\":\"w\",\"steps\":[{\"id\":\"a\"}]}").unwrap());
    assert_eq!(start_line(&w, "T"), "[workflow] T 开始: w (1 steps)");
    assert_eq!(end_line(&w, true, 9, 12), "[workflow] ✅ 完成: w (1 steps, 9 tokens, 12ms)");
    let one = vec![mk("a", true, 5)];
    assert_eq!(
        compact(&summary(&w, true, 5, 12, &one, "T")),
        "{\"duration_ms\":12,\"ok\":true,\"results\":[{\"duration_ms\":2,\"id\":\"a\",\"ok\":true,\"output\":\"o\",\"tokens\":5}],\"total_steps\":1,\"total_tokens\":5,\"ts\":\"T\",\"workflow\":\"w\"}"
    );
    let twice = vec![mk("a", false, 3), mk("a", true, 5)];
    let e = end_workflow(&w, &vec![], &twice, 12, "T").unwrap();
    assert!(!e.ok);
    assert_eq!(e.line.unwrap(), "[workflow] ❌ 完成: w (1 steps, 5 tokens, 12ms)");
    assert_eq!(compact(&e.value), compact(&summary(&w, false, 5, 12, &one, "T")));
    let e = end_workflow(&w, &vec![], &one, 12, "T").unwrap();
    assert!(e.ok);
    let e = end_workflow(&w, &vec![0], &one, 12, "T").unwrap();
    assert!(!e.ok);
    assert!(e.line.is_none());
    assert_eq!(compact(&e.value), compact(&deadlock_report(&w, &vec![0])));
    let large = vec![mk("x", true, u64::MAX), mk("y", true, 1)];
    assert!(end_workflow(&w, &vec![], &large, 12, "T").is_none());
}
