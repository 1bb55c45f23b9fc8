use dsh_tools::raise::{begin, step, Action, Stage, State, Step};
use dsh_tools::release::version_ok;
use dsh_tools::version::{
    bump, bump_cargo, bump_fits, bump_package_text, bump_project, cargo_version, changelog_with,
    commit_message, current_version, package_text_version, parse_version, plan_from,
    regex_capture, tag_name, update_changelog, version_args, version_refusal, Plan, Project,
    VersionArgs,
};

fn vs_all(v: &[&str]) -> Vec<String> {
    v.iter().map(|s| s.to_string()).collect()
}

#[test]
fn newer_hosts_satisfy() {
    assert!(version_ok("4.0.0-rc.8", "4.0.0-rc.6"));
    assert!(!version_ok("4.0.0-rc.5", "4.0.0-rc.6"));
    assert!(version_ok("4.0.0", "4.0.0-rc.6"));
    assert!(!version_ok("4.0.0-rc.6", "4.0.0"));
    assert!(!version_ok("1.0.0-rc.1000", "1.0.0"));
    assert!(!version_ok("1.0.0-rc.99999999999999999999", "1.0.0"));
    assert!(version_ok("1.0.0", "1.0.0-rc.1000"));
    assert!(version_ok("1.10.0", "^1.9.9"));
    assert!(!version_ok("1.9", "1.10"));
    assert!(version_ok("v2", ">=1.9"));
    assert!(version_ok("1.0", "1"));
    assert!(version_ok("anything", "*"));
    assert!(version_ok("anything", " "));
    assert!(version_ok("?", "1.2.3"));
}

#[test]
fn versions_are_read() {
    assert_eq!(parse_version("1.2.3"), Some((1, 2, 3)));
    assert_eq!(parse_version(" 1.2.3-rc.1+b5 "), Some((1, 2, 3)));
    assert_eq!(regex_capture("1.2.3.4"), None);
    assert_eq!(regex_capture("1.2.3-"), None);
    assert_eq!(regex_capture("1.2.3-rc_1"), None);
    assert_eq!(regex_capture("1.2.3+b+c"), None);
    assert_eq!(parse_version("\t1.2.3+build-7.x\n"), Some((1, 2, 3)));
    assert_eq!(parse_version("1.2.3--"), Some((1, 2, 3)));
    assert_eq!(parse_version("1.2"), None);
    assert_eq!(parse_version("?"), None);
    assert_eq!(parse_version("1.x.3"), None);
}

#[test]
fn versions_are_raised() {
    assert_eq!(bump("1.2.3", "fix"), Ok(("1.2.4".to_string(), "1.2.3".to_string())));
    assert_eq!(bump("1.2.3", "feat"), Ok(("1.3.0".to_string(), "1.2.3".to_string())));
    assert_eq!(bump("1.2.3-rc.1", "breaking"), Ok(("2.0.0".to_string(), "1.2.3".to_string())));
    assert_eq!(bump("?", "fix"), Err("无法解析版本号: ?".to_string()));
    assert!(bump_fits("1.2.3", "fix"));
    assert!(!bump_fits("1.2.18446744073709551615", "fix"));
    assert!(bump_fits("1.2.18446744073709551615", "feat"));
}

#[test]
fn a_raised_version_is_read_back() {
    for (kind, want) in [("fix", (1, 2, 4)), ("feat", (1, 3, 0)), ("breaking", (2, 0, 0))] {
        let (new, _) = bump("1.2.3", kind).unwrap();
        assert_eq!(parse_version(&new), Some(want));
        assert!(version_ok(&new, "1.2.3"));
        assert!(!version_ok("1.2.3", &new));
    }
}

#[test]
fn cargo_files_keep_their_other_lines() {
    let raw = "[package]\nname = \"x\"\n  version = \"1.0.0\"\nversion = \"9\"";
    let new = bump_cargo(raw, "1.0.1").unwrap();
    assert_eq!(new, "[package]\nname = \"x\"\n  version = \"1.0.1\"\nversion = \"9\"\n");
    assert_eq!(cargo_version(&new), "1.0.1");
    assert_eq!(bump_cargo("[package]", "1"), Err("Cargo.toml 未找到 version 字段".to_string()));
    assert_eq!(cargo_version("[package]"), "?");
    assert_eq!(cargo_version("version = 3"), "?");
}

#[test]
fn packages_keep_their_other_entries() {
    let raw = "{\"version\":\"1.0.0\",\"name\":\"x\"}";
    let new = bump_package_text(raw, "1.1.0").unwrap().unwrap();
    assert_eq!(new, "{\n  \"name\": \"x\",\n  \"version\": \"1.1.0\"\n}\n");
    assert_eq!(package_text_version(&new), "1.1.0");
    assert_eq!(package_text_version("{}"), "?");
    assert!(bump_package_text("{", "1").unwrap_err().starts_with("解析 package.json: "));
    assert_eq!(bump_package_text("null", "1.1.0"), Ok(Some("{\n  \"version\": \"1.1.0\"\n}\n".to_string())));
    assert_eq!(bump_package_text("[]", "1.1.0"), Ok(None));
}

#[test]
fn projects_are_told_apart() {
    let node = Project::Node(Ok("{\"version\":\"2.0.0\"}".to_string()));
    assert_eq!(current_version(&node), Some("2.0.0".to_string()));
    let rust = Project::Rust(Ok("version = \"3.0.0\"".to_string()));
    assert_eq!(current_version(&rust), Some("3.0.0".to_string()));
    assert_eq!(current_version(&Project::Unknown), None);
    assert_eq!(current_version(&Project::Node(Err("no".to_string()))), Some("?".to_string()));
    assert_eq!(
        bump_project(&Project::Unknown, "1"),
        Err("未找到 package.json 或 Cargo.toml（不支持的项目类型）".to_string())
    );
    assert_eq!(
        bump_project(&Project::Rust(Err("no".to_string())), "1"),
        Err("读 Cargo.toml: no".to_string())
    );
    assert_eq!(
        bump_project(&rust, "3.0.1"),
        Ok(Some("version = \"3.0.1\"\n".to_string()))
    );
}

#[test]
fn the_newest_version_stands_on_top() {
    let old = "# Changelog\n\n## [1.0.0] - 2026-01-01\n\n### 修复\n- a\n".to_string();
    let new = changelog_with(&Some(old.clone()), "1.1.0", "feat", "b", "2026-01-02");
    assert_eq!(
        new,
        "# Changelog\n\n## [1.1.0] - 2026-01-02\n\n### 新功能\n- b\n\n## [1.0.0] - 2026-01-01\n\n### 修复\n- a\n"
    );
    assert!(new.find("[1.1.0]").unwrap() < new.find("[1.0.0]").unwrap());
    assert_eq!(
        changelog_with(&None, "0.1.0", "breaking", "c", "D"),
        "# Changelog\n\n## [0.1.0] - D\n\n### 破坏性变更\n- c\n"
    );
    assert_eq!(
        changelog_with(&Some("x".to_string()), "0.1.0", "fix", "c", "D"),
        "x\n## [0.1.0] - D\n\n### 修复\n- c\n"
    );
    let first = changelog_with(&Some("## [1.0.0] - E\n".to_string()), "1.1.0", "fix", "b", "D");
    assert_eq!(first, "\n## [1.1.0] - D\n\n### 修复\n- b\n## [1.0.0] - E\n");
    let today = update_changelog(&None, "0.1.0", "fix", "c");
    assert!(today.starts_with("# Changelog\n\n## [0.1.0] - 2"));
    assert!(today.ends_with("\n\n### 修复\n- c\n"));
}

#[test]
fn what_a_raise_prints() {
    let a = version_args(&vs_all(&["--type", "feat", "--desc", "d", "--repo", "/r"]));
    assert!(version_refusal(&a).is_none());
    match plan_from(&a, &Some("1.2.3".to_string())) {
        Plan::Raise { lines, version } => {
            assert_eq!(version, "1.3.0");
            assert_eq!(
                lines,
                vs_all(&[
                    "═══ dsh-tools version ═══",
                    "  仓库: /r",
                    "  类型: feat | 版本: 1.2.3 → 1.3.0",
                ])
            );
        }
        _ => panic!("the version can be raised"),
    }
    let dry = version_args(&vs_all(&["--desc", "d", "--dry-run"]));
    match plan_from(&dry, &Some("1.2.3".to_string())) {
        Plan::Stop(o) => {
            assert_eq!(o.code, 0);
            assert_eq!(o.lines.last().unwrap(), "  [dry-run] 预览完成，未执行任何变更");
        }
        _ => panic!("a dry run stops"),
    }
    match plan_from(&a, &None) {
        Plan::Stop(o) => {
            assert_eq!(o.code, 1);
            assert_eq!(o.lines, vs_all(&["错误: 未找到 package.json 或 Cargo.toml"]));
        }
        _ => panic!("there is no project"),
    }
    match plan_from(&a, &Some("x".to_string())) {
        Plan::Stop(o) => assert_eq!(o.lines, vs_all(&["错误: 无法解析版本号: x"])),
        _ => panic!("there is no version"),
    }
    assert!(matches!(
        plan_from(&a, &Some("1.18446744073709551615.0".to_string())),
        Plan::TooLarge
    ));
}

#[test]
fn a_raise_without_description_is_refused() {
    let o = version_refusal(&version_args(&[])).unwrap();
    assert_eq!(o.code, 2);
    assert_eq!(o.lines.len(), 5);
    let o = version_refusal(&version_args(&vs_all(&["--desc", "d", "--type", "major"]))).unwrap();
    assert_eq!(o.code, 2);
    assert_eq!(o.lines, vs_all(&["错误: --type 必须是 fix/feat/breaking"]));
}

fn vs_ran(s: &Step) -> Vec<String> {
    match &s.action {
        Action::Run { words, dir } => {
            assert_eq!(dir, "/r");
            words.clone()
        }
        _ => panic!("a command runs"),
    }
}

fn vs_next(a: &VersionArgs, s: Step, reply: Result<&str, &str>) -> Step {
    let r = reply.map(|x| x.to_string()).map_err(|x| x.to_string());
    step(a, &s.state, r, "2026-01-02")
}

#[test]
fn a_raise_runs_its_commands_in_order() {
    let a = version_args(&vs_all(&["--type", "feat", "--desc", "d", "--repo", "/r"]));
    let s = step(&a, &begin(), Ok(String::new()), "2026-01-02");
    assert_eq!(vs_ran(&s), vs_all(&["git", "rev-parse", "--is-inside-work-tree"]));
    let s = vs_next(&a, s, Ok("true"));
    assert!(matches!(&s.action, Action::Look { path } if path == "/r/package.json"));
    let s = vs_next(&a, s, Err(""));
    assert!(matches!(&s.action, Action::Look { path } if path == "/r/Cargo.toml"));
    let s = vs_next(&a, s, Ok(""));
    assert!(matches!(&s.action, Action::Read { path } if path == "/r/Cargo.toml"));
    let s = vs_next(&a, s, Ok("version = \"1.2.3\""));
    assert_eq!(s.lines[2], "  类型: feat | 版本: 1.2.3 → 1.3.0");
    match &s.action {
        Action::Write { path, text } => {
            assert_eq!(path, "/r/Cargo.toml");
            assert_eq!(text, "version = \"1.3.0\"\n");
        }
        _ => panic!("the version is written"),
    }
    let s = vs_next(&a, s, Ok(""));
    assert_eq!(s.lines, vs_all(&["  ✅ Cargo.toml: version -> 1.3.0"]));
    assert!(matches!(&s.action, Action::Look { path } if path == "/r/CHANGELOG.md"));
    let s = vs_next(&a, s, Ok(""));
    assert!(matches!(&s.action, Action::Read { path } if path == "/r/CHANGELOG.md"));
    let s = vs_next(&a, s, Ok("# C\n"));
    match &s.action {
        Action::Write { path, text } => {
            assert_eq!(path, "/r/CHANGELOG.md");
            assert_eq!(text, "# C\n\n## [1.3.0] - 2026-01-02\n\n### 新功能\n- d\n");
        }
        _ => panic!("the changelog is written"),
    }
    let s = vs_next(&a, s, Ok(""));
    assert_eq!(s.lines, vs_all(&["  ✅ CHANGELOG.md: 追加 [1.3.0] d"]));
    assert_eq!(vs_ran(&s), vs_all(&["git", "add", "-A"]));
    let s = vs_next(&a, s, Err("big"));
    assert_eq!(s.lines, vs_all(&["警告: git add 失败（可能有大文件被忽略）: big"]));
    assert_eq!(vs_ran(&s), vs_all(&["git", "commit", "-m", "v1.3.0: d"]));
    let s = vs_next(&a, s, Ok(""));
    assert_eq!(s.lines, vs_all(&["  ✅ git commit: v1.3.0: d"]));
    assert_eq!(vs_ran(&s), vs_all(&["git", "tag", "v1.3.0"]));
    let s = vs_next(&a, s, Ok(""));
    assert_eq!(s.lines[0], "  ✅ git tag: v1.3.0");
    assert_eq!(s.lines[1], "  推送提示: git push origin main && git push origin tag v1.3.0");
    assert_eq!(s.lines.last().unwrap(), "═══ 完成 ═══");
    assert!(matches!(s.action, Action::End { code: 0 }));
}

#[test]
fn a_dry_run_runs_no_command() {
    let a = version_args(&vs_all(&["--desc", "d", "--repo", "/r", "--dry-run"]));
    let s = step(&a, &begin(), Ok(String::new()), "D");
    assert!(matches!(&s.action, Action::Look { path } if path == "/r/package.json"));
    let s = vs_next(&a, s, Ok(""));
    assert!(matches!(&s.action, Action::Read { path } if path == "/r/package.json"));
    let s = vs_next(&a, s, Ok("{\"version\":\"1.0.0\"}"));
    assert_eq!(s.lines.last().unwrap(), "  [dry-run] 预览完成，未执行任何变更");
    assert!(matches!(s.action, Action::End { code: 0 }));
}

#[test]
fn a_raise_ends_where_a_step_fails() {
    let a = version_args(&vs_all(&["--desc", "d", "--repo", "/r"]));
    let at = |stage: Stage, node: bool, logged: bool, reply: Result<&str, &str>| {
        let s = State { stage, version: "1.0.1".to_string(), node, logged };
        let r = reply.map(|x| x.to_string()).map_err(|x| x.to_string());
        let n = step(&a, &s, r, "D");
        match n.action {
            Action::End { code } => (code, n.lines),
            Action::Abort => (-1, n.lines),
            _ => panic!("the run ends"),
        }
    };
    let ends = |m: &str| (1, vs_all(&[m]));
    assert_eq!(at(Stage::InsideAsked, false, false, Err("e")), ends("错误: e（--repo 需指向 git 仓库）"));
    assert_eq!(at(Stage::CargoLooked, false, false, Err("")), ends("错误: 未找到 package.json 或 Cargo.toml"));
    assert_eq!(at(Stage::CargoRead, false, false, Err("e")), ends("错误: 无法解析版本号: ?"));
    assert_eq!(at(Stage::VersionWritten, true, false, Err("e")), ends("错误: 写 package.json: e"));
    assert_eq!(at(Stage::ChangelogRead, true, true, Err("e")), ends("错误: 读 CHANGELOG: e"));
    assert_eq!(at(Stage::ChangelogWritten, true, true, Err("e")), ends("错误: 写 CHANGELOG: e"));
    assert_eq!(at(Stage::ChangelogWritten, true, false, Err("e")), ends("错误: 创建 CHANGELOG: e"));
    assert_eq!(
        at(Stage::Committed, true, true, Err("e")),
        ends("警告: git commit 失败（可能无变更或无身份）: e")
    );
    let (code, lines) = at(Stage::Tagged, true, true, Err("e"));
    assert_eq!((code, lines[0].as_str()), (0, "  警告: tag 已存在或失败: e"));
    assert_eq!(
        at(Stage::PackageRead, false, false, Ok("{\"version\":\"1.0.18446744073709551615\"}")),
        (-1, vec![])
    );
    let usage = step(&version_args(&[]), &begin(), Ok(String::new()), "D");
    assert!(matches!(usage.action, Action::End { code: 2 }));
    assert_eq!(usage.lines.len(), 5);
    assert_eq!(commit_message("1.3.0", "d"), "v1.3.0: d");
    assert_eq!(tag_name("1.3.0"), "v1.3.0");
}
