use dsh_tools::repo::{
    begin, detect_github_channel, read_job, read_kind, repo_usage, run_cmd, ssh_config_with, step,
    use_credentials, Action, Finished, Job, Kind, State,
};
use dsh_tools::json::parse;

fn rp_all(v: &[&str]) -> Vec<String> {
    v.iter().map(|s| s.to_string()).collect()
}

fn rp_ok(s: &str) -> Result<String, String> {
    Ok(s.to_string())
}

fn rp_err(s: &str) -> Result<String, String> {
    Err(s.to_string())
}

fn rp_words(a: &Action) -> String {
    match a {
        Action::Run { words, dir } => format!("{} @ {}", words.join(" "), dir),
        Action::Push { ssh, url, branch } => format!("push {} {} with {}", url, branch, ssh),
        Action::Look { path } => format!("look {}", path),
        Action::Read { path } => format!("read {}", path),
        Action::Write { path, text } => format!("write {} {}", path, text),
        Action::End { code } => format!("end {}", code),
    }
}

fn rp_play(job: &Job, replies: &[Result<String, String>]) -> (Vec<String>, Vec<String>) {
    let mut state: State = begin();
    let mut reply: Result<String, String> = rp_ok("");
    let mut lines: Vec<String> = Vec::new();
    let mut actions: Vec<String> = Vec::new();
    let mut i = 0;
    loop {
        let x = step(job, &state, &reply);
        lines.extend(x.lines);
        actions.push(rp_words(&x.action));
        if matches!(x.action, Action::End { .. }) {
            return (lines, actions);
        }
        state = x.state;
        reply = replies[i].clone();
        i += 1;
    }
}

#[test]
fn a_setup_from_the_start() {
    let job = read_job(Kind::Setup, "/h", &rp_all(&["--repo", "/x/tool", "--visibility", "private"]));
    let (lines, actions) = rp_play(
        &job,
        &[
            rp_ok("me"),
            rp_err("gh 退出码 1"),
            rp_ok(""),
            rp_err(""),
            rp_ok(""),
            rp_ok("ssh-ed25519 AAAA"),
            rp_err("key is already in use"),
            rp_ok("Host x\n"),
            rp_ok(""),
            rp_ok(""),
            rp_err("no main"),
            rp_ok(""),
        ],
    );
    assert_eq!(
        actions,
        rp_all(&[
            "gh api user --jq .login @ .",
            "gh repo view me/tool @ .",
            "gh repo create me/tool --private --confirm @ .",
            "look /h/.ssh/repo-pipeline_me_tool",
            "ssh-keygen -t ed25519 -N  -f /h/.ssh/repo-pipeline_me_tool -q @ .",
            "read /h/.ssh/repo-pipeline_me_tool.pub",
            "gh repo deploy-key add /h/.ssh/repo-pipeline_me_tool.pub --repo me/tool --title repo-pipeline --allow-write @ .",
            "read /h/.ssh/config",
            "write /h/.ssh/config Host x\n\nHost github.com\n    HostName ssh.github.com\n    Port 443\n    User git\n    StrictHostKeyChecking accept-new\n    IdentityFile /h/.ssh/repo-pipeline_me_tool\n",
            "git config --global url.git@github.com:.insteadOf https://github.com/ @ .",
            "push git@github.com:me/tool.git main with ssh -i /h/.ssh/repo-pipeline_me_tool -o StrictHostKeyChecking=accept-new -o ConnectTimeout=8",
            "push git@github.com:me/tool.git master with ssh -i /h/.ssh/repo-pipeline_me_tool -o StrictHostKeyChecking=accept-new -o ConnectTimeout=8",
            "end 0",
        ])
    );
    assert_eq!(
        lines,
        rp_all(&[
            "═══ dsh-tools repo setup ═══",
            "  仓库: tool | GitHub: me",
            "  ✅ GitHub 建仓: https://github.com/me/tool",
            "  ✅ Deploy Key 已注册（幂等复用）",
            "  ✅ SSH 通道配置: github.com → ssh.github.com:443",
            "  ✅ 已推送 me/tool: master",
            "  Gitee: 跳过（未提供 gitee-user/token）",
            "═══ 完成（工作流生成为后续增量）═══",
        ])
    );
}

#[test]
fn a_setup_that_was_done_before() {
    let job = read_job(
        Kind::Setup,
        "/h",
        &rp_all(&["--repo", "/x/tool", "--github-user", "me", "--gitee-user", "u", "--gitee-token", "w"]),
    );
    let (lines, actions) = rp_play(
        &job,
        &[rp_ok(""), rp_ok(""), rp_ok("k"), rp_ok(""), rp_ok("ssh.github.com"), rp_ok(""), rp_ok("")],
    );
    assert_eq!(actions.len(), 8);
    assert_eq!(actions[4], "read /h/.ssh/config");
    assert!(actions[5].starts_with("git config"));
    assert_eq!(
        lines,
        rp_all(&[
            "═══ dsh-tools repo setup ═══",
            "  仓库: tool | GitHub: me",
            "  ✅ GitHub 仓库已存在（复用）",
            "  ✅ Deploy Key 已注册: me/tool",
            "  ✅ 已推送 me/tool: main",
            "  Gitee 同步: --gitee-user=u（token 已提供，建仓+推送）",
            "═══ 完成（工作流生成为后续增量）═══",
        ])
    );
}

#[test]
fn setups_that_fail() {
    let none = read_job(Kind::Setup, "/h", &[]);
    assert_eq!(
        rp_play(&none, &[]),
        (rp_all(&["用法: dsh-tools repo setup --repo <路径>"]), rp_all(&["end 2"]))
    );
    let job = read_job(Kind::Setup, "/h", &rp_all(&["--repo", "t"]));
    let (lines, actions) = rp_play(&job, &[rp_err("gh")]);
    assert_eq!(actions.last().unwrap(), "end 1");
    assert_eq!(lines[2], "错误: 无法确定 GitHub 用户名（gh auth login 或 --github-user）");
    let named = read_job(Kind::Setup, "/h", &rp_all(&["--repo", "t", "--github-user", "m"]));
    let (lines, actions) = rp_play(&named, &[rp_err("v"), rp_err("c")]);
    assert_eq!(actions.last().unwrap(), "end 1");
    assert_eq!(lines[2], "GitHub 建仓失败: c");
    let (lines, actions) = rp_play(&named, &[rp_ok(""), rp_err(""), rp_err("k")]);
    assert_eq!(actions.last().unwrap(), "end 0");
    assert_eq!(lines[3], "  ⚠️ deploy key 失败（改用 https 推送）: k");
    let (lines, _) = rp_play(&named, &[rp_ok(""), rp_ok(""), rp_err("p")]);
    assert_eq!(lines[3], "  ⚠️ deploy key 失败（改用 https 推送）: 读 pub key: p");
    let (lines, _) = rp_play(
        &named,
        &[rp_ok(""), rp_ok(""), rp_ok(""), rp_err("w"), rp_err("c"), rp_err("d"), rp_err("a"), rp_err("b")],
    );
    assert_eq!(lines[3], "  ⚠️ Deploy Key 注册警告: w");
    assert_eq!(lines[4], "  ⚠️ 推送未完成: push 失败: a / push 失败: b");
}

#[test]
fn a_push() {
    let job = read_job(Kind::Push, "/h", &[]);
    let (lines, actions) = rp_play(&job, &[rp_err(""), rp_ok("U"), rp_err("x")]);
    assert_eq!(
        actions,
        rp_all(&[
            "git rev-parse --abbrev-ref HEAD @ .",
            "git remote get-url origin @ .",
            "git push -u origin main @ .",
            "end 0",
        ])
    );
    assert_eq!(
        lines,
        rp_all(&[
            "═══ dsh-tools repo push ═══",
            "  分支: main | origin: U",
            "  ✅ 已推送（若 GitHub 443 被墙，请用 repo setup 走 SSH）",
        ])
    );
    let named = read_job(Kind::Push, "/h", &rp_all(&["--branch", "dev", "--repo", "/r"]));
    let (_, actions) = rp_play(&named, &[rp_ok(""), rp_ok("")]);
    assert_eq!(actions[1], "git push -u origin dev @ /r");
}

#[test]
fn a_sync() {
    let job = read_job(Kind::Sync, "/h", &rp_all(&["--repo", "/x/tool"]));
    let (lines, actions) = rp_play(
        &job,
        &[
            rp_ok("dev"),
            rp_ok("{\"giteeUser\":\"u\",\"giteeToken\":\"w\"}"),
            rp_ok(""),
            rp_ok("git@github.com:o/tool.git"),
            rp_ok(""),
        ],
    );
    assert_eq!(
        actions,
        rp_all(&[
            "git rev-parse --abbrev-ref HEAD @ /x/tool",
            "read /h/.dsh/repo-pipeline.json",
            "git -C /x/tool push https://u:w@gitee.com/u/tool.git dev:dev @ /x/tool",
            "git -C /x/tool remote get-url origin @ /x/tool",
            "gh workflow run Sync to Gitee --repo o/tool @ .",
            "end 0",
        ])
    );
    assert_eq!(
        lines,
        rp_all(&[
            "═══ dsh-tools repo sync ═══",
            "  ✅ Gitee 推送成功: u/tool (dev)",
            "  ✅ Actions 同步工作流已触发: o/tool",
        ])
    );
    let quiet = read_job(Kind::Sync, "/h", &rp_all(&["--repo", "t", "--branch", "b", "--no-actions"]));
    let (lines, actions) = rp_play(&quiet, &[rp_ok("{\"giteeUser\":\"u\",\"giteeToken\":\"w\"}"), rp_err("e")]);
    assert_eq!(actions.last().unwrap(), "end 0");
    assert_eq!(lines[1], "  ❌ Gitee 推送失败: e");
}

#[test]
fn a_sync_without_credentials() {
    let job = read_job(Kind::Sync, "/h", &rp_all(&["--repo", "t", "--branch", "b"]));
    let (lines, actions) = rp_play(&job, &[rp_err("gone")]);
    assert_eq!(actions.last().unwrap(), "end 1");
    assert_eq!(lines[2], "  格式: {\"giteeUser\":\"U\",\"giteeToken\":\"T\"}");
    assert_eq!(rp_play(&read_job(Kind::Sync, "/h", &[]), &[]).1, rp_all(&["end 2"]));
    let x = use_credentials(&job, "b", &parse("{\"giteeUser\":\"u\"}").unwrap());
    assert_eq!(rp_words(&x.action), "end 1");
    let a = use_credentials(&job, "b", &parse("{\"giteeUser\":\"u\",\"giteeToken\":\"one\"}").unwrap());
    let b = use_credentials(&job, "b", &parse("{\"giteeUser\":\"u\",\"giteeToken\":\"two\"}").unwrap());
    assert_eq!(a.lines, b.lines);
    assert_ne!(rp_words(&a.action), rp_words(&b.action));
}

#[test]
fn the_state_of_the_remotes() {
    let job = read_job(Kind::Status, "/h", &rp_all(&["--repo", "/r"]));
    let (lines, actions) = rp_play(
        &job,
        &[
            rp_ok("main"),
            rp_ok("origin\thttps://github.com/o/t.git (fetch)"),
            rp_err("offline"),
            rp_ok("2"),
            rp_err("?"),
            rp_ok("https://github.com/o/t.git"),
            rp_ok("a\nb\nc\nd\ne\nf"),
        ],
    );
    assert_eq!(
        actions,
        rp_all(&[
            "git rev-parse --abbrev-ref HEAD @ /r",
            "git remote -v @ /r",
            "git fetch --all @ /r",
            "git rev-list --count origin/main..main @ /r",
            "git rev-list --count main..origin/main @ /r",
            "git remote get-url origin @ /r",
            "gh run list --repo o/t --limit 5 @ .",
            "end 0",
        ])
    );
    assert_eq!(
        lines,
        rp_all(&[
            "═══ dsh-tools repo status ═══",
            "  本地分支: main",
            "  GitHub remote: ✅",
            "  Gitee remote:  ❌",
            "  与 origin/main 比较: ahead=2 behind=?",
            "  Actions 最近运行:",
            "    a",
            "    b",
            "    c",
            "    d",
            "    e",
        ])
    );
    let (lines, actions) = rp_play(
        &job,
        &[rp_err(""), rp_ok("x\tgit@gitee.com:o/t"), rp_ok(""), rp_ok("0"), rp_ok("1")],
    );
    assert_eq!(actions.len(), 6);
    assert_eq!(lines[3], "  Gitee remote:  ✅");
    assert_eq!(lines[4], "  与 origin/? 比较: ahead=0 behind=1");
}

#[test]
fn commands_and_channels() {
    assert_eq!(run_cmd("git", &Err("e".to_string())), Err("执行 git 失败: e".to_string()));
    let f = |success: bool| Finished {
        success,
        status: "exit status: 1".to_string(),
        stdout: " out\n".to_string(),
        stderr: " err\n".to_string(),
    };
    assert_eq!(run_cmd("git", &Ok(f(true))), Ok("out".to_string()));
    assert_eq!(run_cmd("git", &Ok(f(false))), Err("git 退出码 exit status: 1: err".to_string()));
    assert_eq!(detect_github_channel(&Some("200".to_string())), Ok(true));
    assert_eq!(detect_github_channel(&Some("403".to_string())), Ok(true));
    assert_eq!(detect_github_channel(&Some("000".to_string())), Ok(false));
    assert_eq!(detect_github_channel(&None), Ok(false));
    let once = ssh_config_with("", "/k").unwrap();
    assert!(ssh_config_with(&once, "/k").is_none());
    assert!(read_kind("setup") == Some(Kind::Setup));
    assert!(read_kind("version").is_none());
    assert_eq!(repo_usage().len(), 5);
}
