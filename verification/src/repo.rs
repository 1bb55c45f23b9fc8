//! The two remotes of a repository: setting them up, pushing, syncing and asking for
//! their state. Each job is a row of steps; a step takes the outcome of the action
//! before it, and gives what is printed and the next action.
use vstd::prelude::*;
use crate::args::{names, options, plain_words, read_args, value_or};
use crate::json::{json_parsed, parse, Json, JsonView};
use crate::order::at_most;
use crate::path::{file_name, name_of};
use crate::report::say;
use crate::text::{
    begins, cat, cat3, cat4, cat5, cat7, contains, contains_iff_found, ends, found_there, has,
    join, lines, lines_of, occurs_at, replace, replaced, same, split, starts, strip_suffixes,
    texts, trim, trimmed, without_suffixes,
};

verus! {

// ---------------------------------------------------------------- jobs

/// What is to be done.
#[derive(Clone, Copy, PartialEq, Eq, Structural, Debug)]
pub enum Kind {
    Setup,
    Push,
    Sync,
    Status,
}

/// A job with its arguments.
pub struct Job {
    pub kind: Kind,
    pub home: String,
    pub repo: String,
    pub branch: String,
    pub github_user: String,
    pub gitee_user: String,
    pub gitee_token: String,
    pub visibility: String,
    pub actions: bool,
}

/// A job, as texts.
#[verifier::ext_equal]
pub struct JobView {
    pub kind: Kind,
    pub home: Seq<char>,
    pub repo: Seq<char>,
    pub branch: Seq<char>,
    pub github_user: Seq<char>,
    pub gitee_user: Seq<char>,
    pub gitee_token: Seq<char>,
    pub visibility: Seq<char>,
    pub actions: bool,
}

impl View for Job {
    type V = JobView;

    open spec fn view(&self) -> JobView {
        JobView {
            kind: self.kind,
            home: self.home@,
            repo: self.repo@,
            branch: self.branch@,
            github_user: self.github_user@,
            gitee_user: self.gitee_user@,
            gitee_token: self.gitee_token@,
            visibility: self.visibility@,
            actions: self.actions,
        }
    }
}

/// The job that a subcommand names.
pub open spec fn kind_of(sub: Seq<char>) -> Option<Kind> {
    if sub == "setup"@ {
        Some(Kind::Setup)
    } else if sub == "push"@ {
        Some(Kind::Push)
    } else if sub == "sync"@ {
        Some(Kind::Sync)
    } else if sub == "status"@ {
        Some(Kind::Status)
    } else {
        None
    }
}

/// The options of a job that take a value.
pub open spec fn job_options(k: Kind) -> Seq<Seq<char>> {
    match k {
        Kind::Setup => seq![
            "--repo"@,
            "--github-user"@,
            "--gitee-user"@,
            "--gitee-token"@,
            "--visibility"@,
        ],
        Kind::Push => seq!["--repo"@, "--branch"@],
        Kind::Sync => seq!["--repo"@, "--branch"@],
        Kind::Status => seq!["--repo"@],
    }
}

/// The repository of a job that names none: the current directory for a push or a
/// question, none for the others.
pub open spec fn default_repo(k: Kind) -> Seq<char> {
    match k {
        Kind::Push => "."@,
        Kind::Status => "."@,
        _ => seq![],
    }
}

/// The job with its arguments.
pub open spec fn job_of(k: Kind, home: Seq<char>, args: Seq<Seq<char>>) -> JobView {
    let o = options(args, job_options(k));
    JobView {
        kind: k,
        home,
        repo: value_or(o, "--repo"@, default_repo(k)),
        branch: value_or(o, "--branch"@, seq![]),
        github_user: value_or(o, "--github-user"@, seq![]),
        gitee_user: value_or(o, "--gitee-user"@, seq![]),
        gitee_token: value_or(o, "--gitee-token"@, seq![]),
        visibility: value_or(o, "--visibility"@, "public"@),
        actions: !plain_words(args, job_options(k)).contains("--no-actions"@),
    }
}

/// The job that a subcommand names.
pub fn read_kind(sub: &str) -> (r: Option<Kind>)
    ensures
        r == kind_of(sub@),
{
    if same(sub, "setup") {
        Some(Kind::Setup)
    } else if same(sub, "push") {
        Some(Kind::Push)
    } else if same(sub, "sync") {
        Some(Kind::Sync)
    } else if same(sub, "status") {
        Some(Kind::Status)
    } else {
        None
    }
}

/// The job with its arguments.
pub fn read_job(kind: Kind, home: &str, args: &[String]) -> (r: Job)
    ensures
        r@ == job_of(kind, home@, texts(args@)),
{
    let setup = ["--repo", "--github-user", "--gitee-user", "--gitee-token", "--visibility"];
    let branched = ["--repo", "--branch"];
    let asked = ["--repo"];
    proof {
        reveal_strlit("");
        assert(""@ =~= seq![]);
        assert(names(setup@) =~= job_options(Kind::Setup));
        assert(names(branched@) =~= job_options(Kind::Push));
        assert(names(branched@) =~= job_options(Kind::Sync));
        assert(names(asked@) =~= job_options(Kind::Status));
    }
    let a = match kind {
        Kind::Setup => read_args(args, &setup),
        Kind::Push => read_args(args, &branched),
        Kind::Sync => read_args(args, &branched),
        Kind::Status => read_args(args, &asked),
    };
    let d = match kind {
        Kind::Push => ".",
        Kind::Status => ".",
        _ => "",
    };
    Job {
        kind,
        home: home.to_owned(),
        repo: a.value_or("--repo", d),
        branch: a.value_or("--branch", ""),
        github_user: a.value_or("--github-user", ""),
        gitee_user: a.value_or("--gitee-user", ""),
        gitee_token: a.value_or("--gitee-token", ""),
        visibility: a.value_or("--visibility", "public"),
        actions: !a.has("--no-actions"),
    }
}

/// What is printed where no job is named.
pub open spec fn usage_lines() -> Seq<Seq<char>> {
    seq![
        "用法: dsh-tools repo <setup|push|sync|status> [参数]"@,
        "  repo setup --repo <路径> [--github-user U] [--gitee-user U] [--gitee-token T] [--visibility public|private]"@,
        "  repo push [--repo <路径>] [--branch B]"@,
        "  repo sync --repo <路径> [--branch B]"@,
        "  repo status --repo <路径>"@,
    ]
}

/// What is printed where no job is named.
pub fn repo_usage() -> (l: Vec<String>)
    ensures
        texts(l@) == usage_lines(),
{
    let mut l: Vec<String> = Vec::new();
    say(&mut l, "用法: dsh-tools repo <setup|push|sync|status> [参数]");
    say(
        &mut l,
        "  repo setup --repo <路径> [--github-user U] [--gitee-user U] [--gitee-token T] [--visibility public|private]",
    );
    say(&mut l, "  repo push [--repo <路径>] [--branch B]");
    say(&mut l, "  repo sync --repo <路径> [--branch B]");
    say(&mut l, "  repo status --repo <路径>");
    assert(texts(l@) =~= usage_lines());
    l
}

// ---------------------------------------------------------------- commands

/// How a command ended.
pub struct Finished {
    pub success: bool,
    pub status: String,
    pub stdout: String,
    pub stderr: String,
}

/// What a command printed, or why it failed.
pub fn run_cmd(cmd: &str, out: &Result<Finished, String>) -> (r: Result<String, String>)
    ensures
        match out {
            Err(e) => r matches Err(m) && m@ == "执行 "@ + cmd@ + " 失败: "@ + e@,
            Ok(f) => if f.success {
                r matches Ok(s) && s@ == trim(f.stdout@)
            } else {
                r matches Err(m) && m@ == cmd@ + " 退出码 "@ + f.status@ + ": "@ + trim(f.stderr@)
            },
        },
{
    match out {
        Err(e) => Err(cat4("执行 ", cmd, " 失败: ", e.as_str())),
        Ok(f) => if f.success {
            Ok(trimmed(f.stdout.as_str()))
        } else {
            Err(
                cat5(
                    cmd,
                    " 退出码 ",
                    f.status.as_str(),
                    ": ",
                    trimmed(f.stderr.as_str()).as_str(),
                ),
            )
        },
    }
}

/// Whether GitHub is reached by HTTPS: it answers with a code of the two or the four
/// hundreds. Where it does not, SSH is used, with a key of the repository. What could not
/// be run counts as no answer.
pub fn detect_github_channel(https: &Option<String>) -> (r: Result<bool, String>)
    ensures
        r == Ok::<bool, String>(
            https matches Some(c) && (starts(c@, "2"@) || starts(c@, "4"@)),
        ),
{
    match https {
        Some(c) => Ok(begins(c.as_str(), "2") || begins(c.as_str(), "4")),
        None => Ok(false),
    }
}

/// The repository by its owner and name, as the address of its origin gives it.
pub open spec fn owner_in(url: Seq<char>) -> Seq<char> {
    strip_suffixes(
        replace(replace(url, "git@github.com:"@, seq![]), "https://github.com/"@, seq![]),
        ".git"@,
    )
}

fn owner_of(url: &Result<String, String>) -> (r: String)
    ensures
        r@ == match url {
            Ok(u) => owner_in(u@),
            Err(_) => seq![],
        },
{
    proof {
        reveal_strlit("");
        assert(""@ =~= seq![]);
    }
    match url {
        Ok(u) => {
            let a = replaced(u.as_str(), "git@github.com:", "");
            let b = replaced(a.as_str(), "https://github.com/", "");
            without_suffixes(b.as_str(), ".git")
        },
        Err(_) => String::new(),
    }
}

/// The file of the key of a repository.
pub open spec fn key_file(home: Seq<char>, owner: Seq<char>, repo: Seq<char>) -> Seq<char> {
    home + "/.ssh/repo-pipeline_"@ + owner + "_"@ + repo
}

fn key_path(home: &str, owner: &str, repo: &str) -> (r: String)
    ensures
        r@ == key_file(home@, owner@, repo@),
{
    cat5(home, "/.ssh/repo-pipeline_", owner, "_", repo)
}

/// What is added to the configuration of SSH.
pub open spec fn ssh_block(key: Seq<char>) -> Seq<char> {
    "\nHost github.com\n    HostName ssh.github.com\n    Port 443\n    User git\n    StrictHostKeyChecking accept-new\n    IdentityFile "@
        + key + "\n"@
}

/// The configuration of SSH with the channel to GitHub in it; nothing where the
/// channel is there already.
pub fn ssh_config_with(cfg: &str, key: &str) -> (r: Option<String>)
    ensures
        match r {
            Some(t) => !contains(cfg@, "ssh.github.com"@) && t@ == cfg@ + ssh_block(key@),
            None => contains(cfg@, "ssh.github.com"@),
        },
{
    if has(cfg, "ssh.github.com") {
        return None;
    }
    let block = cat3(
        "\nHost github.com\n    HostName ssh.github.com\n    Port 443\n    User git\n    StrictHostKeyChecking accept-new\n    IdentityFile ",
        key,
        "\n",
    );
    Some(cat(cfg, block.as_str()))
}

/// The channel, once configured, is not configured again.
pub proof fn channel_is_set_once(cfg: Seq<char>, key: Seq<char>)
    ensures
        contains(cfg + ssh_block(key), "ssh.github.com"@),
{
    let b =
        "\nHost github.com\n    HostName ssh.github.com\n    Port 443\n    User git\n    StrictHostKeyChecking accept-new\n    IdentityFile "@;
    let p = "ssh.github.com"@;
    reveal_strlit(
        "\nHost github.com\n    HostName ssh.github.com\n    Port 443\n    User git\n    StrictHostKeyChecking accept-new\n    IdentityFile ",
    );
    reveal_strlit("ssh.github.com");
    let t = cfg + ssh_block(key);
    let i = cfg.len() as int + 30;
    assert(p.len() == 14);
    assert(b.subrange(30, 44) =~= p);
    assert(t.subrange(i, i + 14) =~= b.subrange(30, 44));
    assert(crate::text::occurs_at(t, p, i));
}

// ---------------------------------------------------------------- steps

/// Which action a job waits for.
#[derive(Clone, Copy, PartialEq, Eq, Structural, Debug)]
pub enum Stage {
    Start,
    UserAsked,
    RepoViewed,
    RepoCreated,
    KeyLooked,
    KeyMade,
    PubRead,
    KeyAdded,
    ConfigRead,
    ConfigWritten,
    Redirected,
    MainPushed,
    MasterPushed,
    BranchAsked,
    OriginAsked,
    Pushed,
    CredentialsRead,
    GiteePushed,
    OwnerAsked,
    Triggered,
    RemotesAsked,
    Fetched,
    AheadCounted,
    BehindCounted,
    RunsAsked,
    Ended,
}

/// How far a job is: the stage, the user or the branch, an outcome that is still
/// needed, and whether a remote on GitHub was seen.
pub struct State {
    pub stage: Stage,
    pub name: String,
    pub note: String,
    pub github: bool,
}

/// How far a job is, as texts.
#[verifier::ext_equal]
pub struct StateView {
    pub stage: Stage,
    pub name: Seq<char>,
    pub note: Seq<char>,
    pub github: bool,
}

impl View for State {
    type V = StateView;

    open spec fn view(&self) -> StateView {
        StateView {
            stage: self.stage,
            name: self.name@,
            note: self.note@,
            github: self.github,
        }
    }
}

/// What is to be done next.
pub enum Action {
    /// Run a command in a directory; the reply is what it printed.
    Run { words: Vec<String>, dir: String },
    /// Push a branch with a command for SSH.
    Push { ssh: String, url: String, branch: String },
    /// Look whether a file exists; the reply is a failure where it does not.
    Look { path: String },
    /// Read a file.
    Read { path: String },
    /// Write a file.
    Write { path: String, text: String },
    /// End with an exit code.
    End { code: i32 },
}

/// What is to be done next, as texts.
#[verifier::ext_equal]
pub enum ActionView {
    Run { words: Seq<Seq<char>>, dir: Seq<char> },
    Push { ssh: Seq<char>, url: Seq<char>, branch: Seq<char> },
    Look { path: Seq<char> },
    Read { path: Seq<char> },
    Write { path: Seq<char>, text: Seq<char> },
    End { code: i32 },
}

impl View for Action {
    type V = ActionView;

    open spec fn view(&self) -> ActionView {
        match *self {
            Action::Run { words, dir } => ActionView::Run { words: texts(words@), dir: dir@ },
            Action::Push { ssh, url, branch } => ActionView::Push {
                ssh: ssh@,
                url: url@,
                branch: branch@,
            },
            Action::Look { path } => ActionView::Look { path: path@ },
            Action::Read { path } => ActionView::Read { path: path@ },
            Action::Write { path, text } => ActionView::Write { path: path@, text: text@ },
            Action::End { code } => ActionView::End { code },
        }
    }
}

/// A step of a job.
pub struct Step {
    pub lines: Vec<String>,
    pub state: State,
    pub action: Action,
}

/// A step of a job, as texts.
#[verifier::ext_equal]
pub struct StepView {
    pub lines: Seq<Seq<char>>,
    pub state: StateView,
    pub action: ActionView,
}

impl View for Step {
    type V = StepView;

    open spec fn view(&self) -> StepView {
        StepView { lines: texts(self.lines@), state: self.state@, action: self.action@ }
    }
}

/// The outcome of an action, as texts.
pub open spec fn reply_view(r: Result<String, String>) -> Result<Seq<char>, Seq<char>> {
    match r {
        Ok(s) => Ok(s@),
        Err(e) => Err(e@),
    }
}

/// What an action gave, or `d` where it failed.
pub open spec fn given(r: Result<Seq<char>, Seq<char>>, d: Seq<char>) -> Seq<char> {
    match r {
        Ok(s) => s,
        Err(_) => d,
    }
}

fn given_or(r: &Result<String, String>, d: &str) -> (s: String)
    ensures
        s@ == given(reply_view(*r), d@),
{
    match r {
        Ok(s) => s.clone(),
        Err(_) => d.to_owned(),
    }
}

/// A step that prints some lines and goes on.
pub open spec fn go(
    lines: Seq<Seq<char>>,
    stage: Stage,
    name: Seq<char>,
    note: Seq<char>,
    github: bool,
    action: ActionView,
) -> StepView {
    StepView { lines, state: StateView { stage, name, note, github }, action }
}

/// A step that prints some lines and ends.
pub open spec fn stop(lines: Seq<Seq<char>>, code: i32) -> StepView {
    go(lines, Stage::Ended, seq![], seq![], false, ActionView::End { code })
}

fn go_on(
    lines: Vec<String>,
    stage: Stage,
    name: &str,
    note: &str,
    github: bool,
    action: Action,
) -> (r: Step)
    ensures
        r@ == go(texts(lines@), stage, name@, note@, github, action@),
{
    Step {
        lines,
        state: State { stage, name: name.to_owned(), note: note.to_owned(), github },
        action,
    }
}

fn stop_with(lines: Vec<String>, code: i32) -> (r: Step)
    ensures
        r@ == stop(texts(lines@), code),
{
    proof {
        reveal_strlit("");
        assert(""@ =~= seq![]);
    }
    go_on(lines, Stage::Ended, "", "", false, Action::End { code })
}

fn run(words: &[&str], dir: &str) -> (r: Action)
    ensures
        r@ == (ActionView::Run { words: names(words@), dir: dir@ }),
{
    let mut v: Vec<String> = Vec::new();
    let mut i: usize = 0;
    while i < words.len()
        invariant
            i <= words@.len(),
            v@.len() == i,
            forall|j: int| 0 <= j < i ==> (#[trigger] v@[j])@ == words@[j]@,
        decreases words@.len() - i,
    {
        v.push(words[i].to_owned());
        i += 1;
    }
    assert(texts(v@) =~= names(words@));
    Action::Run { words: v, dir: dir.to_owned() }
}

// ---------------------------------------------------------------- setting up

/// The owner and the name with a slash between them.
pub open spec fn full_name(owner: Seq<char>, repo: Seq<char>) -> Seq<char> {
    owner + "/"@ + repo
}

/// Asks who the user of GitHub is.
pub open spec fn ask_user() -> ActionView {
    ActionView::Run { words: seq!["gh"@, "api"@, "user"@, "--jq"@, ".login"@], dir: "."@ }
}

/// Asks for the repository on GitHub.
pub open spec fn view_repo(user: Seq<char>, repo: Seq<char>) -> ActionView {
    ActionView::Run { words: seq!["gh"@, "repo"@, "view"@, full_name(user, repo)], dir: "."@ }
}

/// Makes the repository on GitHub.
pub open spec fn create_repo(user: Seq<char>, repo: Seq<char>, visibility: Seq<char>) -> ActionView {
    ActionView::Run {
        words: seq![
            "gh"@,
            "repo"@,
            "create"@,
            full_name(user, repo),
            "--"@ + visibility,
            "--confirm"@,
        ],
        dir: "."@,
    }
}

/// Makes a key.
pub open spec fn make_key(key: Seq<char>) -> ActionView {
    ActionView::Run {
        words: seq!["ssh-keygen"@, "-t"@, "ed25519"@, "-N"@, ""@, "-f"@, key, "-q"@],
        dir: "."@,
    }
}

/// Registers a key.
pub open spec fn add_key(key: Seq<char>, user: Seq<char>, repo: Seq<char>) -> ActionView {
    ActionView::Run {
        words: seq![
            "gh"@,
            "repo"@,
            "deploy-key"@,
            "add"@,
            key + ".pub"@,
            "--repo"@,
            full_name(user, repo),
            "--title"@,
            "repo-pipeline"@,
            "--allow-write"@,
        ],
        dir: "."@,
    }
}

/// Leads git from HTTPS to SSH.
pub open spec fn redirect() -> ActionView {
    ActionView::Run {
        words: seq![
            "git"@,
            "config"@,
            "--global"@,
            "url.git@github.com:.insteadOf"@,
            "https://github.com/"@,
        ],
        dir: "."@,
    }
}

/// Pushes a branch with the key of the repository.
pub open spec fn push_branch(
    key: Seq<char>,
    user: Seq<char>,
    repo: Seq<char>,
    branch: Seq<char>,
) -> ActionView {
    ActionView::Push {
        ssh: "ssh -i "@ + key + " -o StrictHostKeyChecking=accept-new -o ConnectTimeout=8"@,
        url: "git@github.com:"@ + user + "/"@ + repo + ".git"@,
        branch,
    }
}

/// The step once the user is known, or is not.
pub open spec fn named_user(j: JobView, user: Seq<char>) -> StepView {
    let name = file_name(j.repo);
    let head = seq![
        "═══ dsh-tools repo setup ═══"@,
        "  仓库: "@ + name + " | GitHub: "@ + user,
    ];
    if user.len() == 0 {
        stop(head.push("错误: 无法确定 GitHub 用户名（gh auth login 或 --github-user）"@), 1)
    } else {
        go(head, Stage::RepoViewed, user, seq![], false, view_repo(user, name))
    }
}

/// The last step of a setup, after some lines.
pub open spec fn set_up(j: JobView, lines: Seq<Seq<char>>) -> StepView {
    stop(
        lines.push(
            if j.gitee_user.len() > 0 && j.gitee_token.len() > 0 {
                "  Gitee 同步: --gitee-user="@ + j.gitee_user + "（token 已提供，建仓+推送）"@
            } else {
                "  Gitee: 跳过（未提供 gitee-user/token）"@
            },
        ).push("═══ 完成（工作流生成为后续增量）═══"@),
        0,
    )
}

/// The last step of a setup whose key failed.
pub open spec fn key_failed(j: JobView, why: Seq<char>) -> StepView {
    set_up(j, seq!["  ⚠️ deploy key 失败（改用 https 推送）: "@ + why])
}

/// What is printed once a key is registered, or could not be.
pub open spec fn key_line(
    r: Result<Seq<char>, Seq<char>>,
    user: Seq<char>,
    repo: Seq<char>,
) -> Seq<char> {
    match r {
        Ok(_) => "  ✅ Deploy Key 已注册: "@ + full_name(user, repo),
        Err(e) => if contains(e, "already in use"@) {
            "  ✅ Deploy Key 已注册（幂等复用）"@
        } else {
            "  ⚠️ Deploy Key 注册警告: "@ + e
        },
    }
}

/// What is printed once a branch is pushed.
pub open spec fn pushed_line(user: Seq<char>, repo: Seq<char>, branch: Seq<char>) -> Seq<char> {
    "  ✅ 已推送 "@ + full_name(user, repo) + ": "@ + branch
}

/// The next step of a setup.
pub open spec fn setup_next(
    j: JobView,
    s: StateView,
    r: Result<Seq<char>, Seq<char>>,
) -> StepView {
    let repo = file_name(j.repo);
    let key = key_file(j.home, s.name, repo);
    match s.stage {
        Stage::Start => if j.repo.len() == 0 {
            stop(seq!["用法: dsh-tools repo setup --repo <路径>"@], 2)
        } else if j.github_user.len() == 0 {
            go(seq![], Stage::UserAsked, seq![], seq![], false, ask_user())
        } else {
            named_user(j, j.github_user)
        },
        Stage::UserAsked => named_user(j, given(r, seq![])),
        Stage::RepoViewed => match r {
            Ok(_) => go(
                seq!["  ✅ GitHub 仓库已存在（复用）"@],
                Stage::KeyLooked,
                s.name,
                seq![],
                false,
                ActionView::Look { path: key },
            ),
            Err(_) => go(
                seq![],
                Stage::RepoCreated,
                s.name,
                seq![],
                false,
                create_repo(s.name, repo, j.visibility),
            ),
        },
        Stage::RepoCreated => match r {
            Ok(_) => go(
                seq!["  ✅ GitHub 建仓: https://github.com/"@ + full_name(s.name, repo)],
                Stage::KeyLooked,
                s.name,
                seq![],
                false,
                ActionView::Look { path: key },
            ),
            Err(e) => stop(seq!["GitHub 建仓失败: "@ + e], 1),
        },
        Stage::KeyLooked => match r {
            Ok(_) => go(
                seq![],
                Stage::PubRead,
                s.name,
                seq![],
                false,
                ActionView::Read { path: key + ".pub"@ },
            ),
            Err(_) => go(seq![], Stage::KeyMade, s.name, seq![], false, make_key(key)),
        },
        Stage::KeyMade => match r {
            Ok(_) => go(
                seq![],
                Stage::PubRead,
                s.name,
                seq![],
                false,
                ActionView::Read { path: key + ".pub"@ },
            ),
            Err(e) => key_failed(j, e),
        },
        Stage::PubRead => match r {
            Ok(_) => go(
                seq![],
                Stage::KeyAdded,
                s.name,
                seq![],
                false,
                add_key(key, s.name, repo),
            ),
            Err(e) => key_failed(j, "读 pub key: "@ + e),
        },
        Stage::KeyAdded => go(
            seq![key_line(r, s.name, repo)],
            Stage::ConfigRead,
            s.name,
            seq![],
            false,
            ActionView::Read { path: j.home + "/.ssh/config"@ },
        ),
        Stage::ConfigRead => {
            let cfg = given(r, seq![]);
            if contains(cfg, "ssh.github.com"@) {
                go(seq![], Stage::Redirected, s.name, seq![], false, redirect())
            } else {
                go(
                    seq![],
                    Stage::ConfigWritten,
                    s.name,
                    seq![],
                    false,
                    ActionView::Write {
                        path: j.home + "/.ssh/config"@,
                        text: cfg + ssh_block(key),
                    },
                )
            }
        },
        Stage::ConfigWritten => match r {
            Ok(_) => go(
                seq!["  ✅ SSH 通道配置: github.com → ssh.github.com:443"@],
                Stage::Redirected,
                s.name,
                seq![],
                false,
                redirect(),
            ),
            Err(_) => go(
                seq![],
                Stage::MainPushed,
                s.name,
                seq![],
                false,
                push_branch(key, s.name, repo, "main"@),
            ),
        },
        Stage::Redirected => go(
            seq![],
            Stage::MainPushed,
            s.name,
            seq![],
            false,
            push_branch(key, s.name, repo, "main"@),
        ),
        Stage::MainPushed => match r {
            Ok(_) => set_up(j, seq![pushed_line(s.name, repo, "main"@)]),
            Err(e) => go(
                seq![],
                Stage::MasterPushed,
                s.name,
                "push 失败: "@ + e,
                false,
                push_branch(key, s.name, repo, "master"@),
            ),
        },
        Stage::MasterPushed => match r {
            Ok(_) => set_up(j, seq![pushed_line(s.name, repo, "master"@)]),
            Err(e) => set_up(j, seq!["  ⚠️ 推送未完成: "@ + s.note + " / "@ + ("push 失败: "@ + e)]),
        },
        _ => stop(seq![], 0),
    }
}

fn with_user(j: &Job, user: &str) -> (r: Step)
    ensures
        r@ == named_user(j@, user@),
{
    proof {
        reveal_strlit("");
        assert(""@ =~= seq![]);
    }
    let name = name_of(j.repo.as_str());
    let mut l: Vec<String> = Vec::new();
    say(&mut l, "═══ dsh-tools repo setup ═══");
    say(&mut l, cat4("  仓库: ", name.as_str(), " | GitHub: ", user).as_str());
    let ghost head = seq![
        "═══ dsh-tools repo setup ═══"@,
        "  仓库: "@ + name@ + " | GitHub: "@ + user@,
    ];
    assert(texts(l@) =~= head);
    if user.is_empty() {
        say(&mut l, "错误: 无法确定 GitHub 用户名（gh auth login 或 --github-user）");
        return stop_with(l, 1);
    }
    let full = cat3(user, "/", name.as_str());
    let w = ["gh", "repo", "view", full.as_str()];
    assert(names(w@) =~= seq!["gh"@, "repo"@, "view"@, full@]);
    go_on(l, Stage::RepoViewed, user, "", false, run(&w, "."))
}

fn finish_setup(j: &Job, lines: Vec<String>) -> (r: Step)
    ensures
        r@ == set_up(j@, texts(lines@)),
{
    let mut l = lines;
    if !j.gitee_user.as_str().is_empty() && !j.gitee_token.as_str().is_empty() {
        say(
            &mut l,
            cat3(
                "  Gitee 同步: --gitee-user=",
                j.gitee_user.as_str(),
                "（token 已提供，建仓+推送）",
            ).as_str(),
        );
    } else {
        say(&mut l, "  Gitee: 跳过（未提供 gitee-user/token）");
    }
    say(&mut l, "═══ 完成（工作流生成为后续增量）═══");
    stop_with(l, 0)
}

fn one_line(s: String) -> (l: Vec<String>)
    ensures
        texts(l@) == seq![s@],
{
    let mut l: Vec<String> = Vec::new();
    let ghost x = s@;
    l.push(s);
    assert(texts(l@) =~= seq![x]);
    l
}

fn no_lines() -> (l: Vec<String>)
    ensures
        texts(l@) == Seq::<Seq<char>>::empty(),
{
    let l: Vec<String> = Vec::new();
    assert(texts(l@) =~= seq![]);
    l
}

fn fail_key(j: &Job, why: &str) -> (r: Step)
    ensures
        r@ == key_failed(j@, why@),
{
    finish_setup(j, one_line(cat("  ⚠️ deploy key 失败（改用 https 推送）: ", why)))
}

fn push_with_key(key: &str, user: &str, repo: &str, branch: &str) -> (r: Action)
    ensures
        r@ == push_branch(key@, user@, repo@, branch@),
{
    Action::Push {
        ssh: cat3("ssh -i ", key, " -o StrictHostKeyChecking=accept-new -o ConnectTimeout=8"),
        url: cat5("git@github.com:", user, "/", repo, ".git"),
        branch: branch.to_owned(),
    }
}

fn lead_to_ssh() -> (r: Action)
    ensures
        r@ == redirect(),
{
    let w = ["git", "config", "--global", "url.git@github.com:.insteadOf", "https://github.com/"];
    assert(names(w@) =~= seq![
        "git"@,
        "config"@,
        "--global"@,
        "url.git@github.com:.insteadOf"@,
        "https://github.com/"@,
    ]);
    run(&w, ".")
}

fn pushed(user: &str, repo: &str, branch: &str) -> (r: Vec<String>)
    ensures
        texts(r@) == seq![pushed_line(user@, repo@, branch@)],
{
    let full = cat3(user, "/", repo);
    one_line(cat4("  ✅ 已推送 ", full.as_str(), ": ", branch))
}

/// The steps of a setup up to the repository on GitHub.
fn setup_first(j: &Job, s: &State, r: &Result<String, String>) -> (x: Step)
    requires
        s.stage == Stage::Start || s.stage == Stage::UserAsked || s.stage == Stage::RepoViewed
            || s.stage == Stage::RepoCreated,
    ensures
        x@ == setup_next(j@, s@, reply_view(*r)),
{
    proof {
        reveal_strlit("");
        assert(""@ =~= seq![]);
    }
    let repo = name_of(j.repo.as_str());
    let user = s.name.as_str();
    let key = key_path(j.home.as_str(), user, repo.as_str());
    let full = cat3(user, "/", repo.as_str());
    match s.stage {
        Stage::Start => if j.repo.as_str().is_empty() {
            stop_with(one_line("用法: dsh-tools repo setup --repo <路径>".to_owned()), 2)
        } else if j.github_user.as_str().is_empty() {
            let w = ["gh", "api", "user", "--jq", ".login"];
            assert(names(w@) =~= seq!["gh"@, "api"@, "user"@, "--jq"@, ".login"@]);
            go_on(no_lines(), Stage::UserAsked, "", "", false, run(&w, "."))
        } else {
            with_user(j, j.github_user.as_str())
        },
        Stage::UserAsked => with_user(j, given_or(r, "").as_str()),
        Stage::RepoViewed => match r {
            Ok(_) => go_on(
                one_line("  ✅ GitHub 仓库已存在（复用）".to_owned()),
                Stage::KeyLooked,
                user,
                "",
                false,
                Action::Look { path: key },
            ),
            Err(_) => {
                let vis = cat("--", j.visibility.as_str());
                let w = ["gh", "repo", "create", full.as_str(), vis.as_str(), "--confirm"];
                assert(names(w@) =~= seq![
                    "gh"@,
                    "repo"@,
                    "create"@,
                    full@,
                    vis@,
                    "--confirm"@,
                ]);
                go_on(no_lines(), Stage::RepoCreated, user, "", false, run(&w, "."))
            },
        },
        _ => match r {
            Ok(_) => go_on(
                one_line(cat("  ✅ GitHub 建仓: https://github.com/", full.as_str())),
                Stage::KeyLooked,
                user,
                "",
                false,
                Action::Look { path: key },
            ),
            Err(e) => stop_with(one_line(cat("GitHub 建仓失败: ", e.as_str())), 1),
        },
    }
}

/// The steps of a setup that make and register the key.
fn setup_key(j: &Job, s: &State, r: &Result<String, String>) -> (x: Step)
    requires
        s.stage == Stage::KeyLooked || s.stage == Stage::KeyMade || s.stage == Stage::PubRead
            || s.stage == Stage::KeyAdded,
    ensures
        x@ == setup_next(j@, s@, reply_view(*r)),
{
    proof {
        reveal_strlit("");
        assert(""@ =~= seq![]);
    }
    let repo = name_of(j.repo.as_str());
    let user = s.name.as_str();
    let key = key_path(j.home.as_str(), user, repo.as_str());
    let key_pub = cat(key.as_str(), ".pub");
    let full = cat3(user, "/", repo.as_str());
    match s.stage {
        Stage::KeyLooked => match r {
            Ok(_) => go_on(
                no_lines(),
                Stage::PubRead,
                user,
                "",
                false,
                Action::Read { path: key_pub },
            ),
            Err(_) => {
                let w = ["ssh-keygen", "-t", "ed25519", "-N", "", "-f", key.as_str(), "-q"];
                assert(names(w@) =~= seq![
                    "ssh-keygen"@,
                    "-t"@,
                    "ed25519"@,
                    "-N"@,
                    ""@,
                    "-f"@,
                    key@,
                    "-q"@,
                ]);
                go_on(no_lines(), Stage::KeyMade, user, "", false, run(&w, "."))
            },
        },
        Stage::KeyMade => match r {
            Ok(_) => go_on(
                no_lines(),
                Stage::PubRead,
                user,
                "",
                false,
                Action::Read { path: key_pub },
            ),
            Err(e) => fail_key(j, e.as_str()),
        },
        Stage::PubRead => match r {
            Ok(_) => {
                let w = [
                    "gh",
                    "repo",
                    "deploy-key",
                    "add",
                    key_pub.as_str(),
                    "--repo",
                    full.as_str(),
                    "--title",
                    "repo-pipeline",
                    "--allow-write",
                ];
                assert(names(w@) =~= seq![
                    "gh"@,
                    "repo"@,
                    "deploy-key"@,
                    "add"@,
                    key_pub@,
                    "--repo"@,
                    full@,
                    "--title"@,
                    "repo-pipeline"@,
                    "--allow-write"@,
                ]);
                go_on(no_lines(), Stage::KeyAdded, user, "", false, run(&w, "."))
            },
            Err(e) => fail_key(j, cat("读 pub key: ", e.as_str()).as_str()),
        },
        _ => {
            let line = match r {
                Ok(_) => cat("  ✅ Deploy Key 已注册: ", full.as_str()),
                Err(e) => if has(e.as_str(), "already in use") {
                    "  ✅ Deploy Key 已注册（幂等复用）".to_owned()
                } else {
                    cat("  ⚠️ Deploy Key 注册警告: ", e.as_str())
                },
            };
            let path = cat(j.home.as_str(), "/.ssh/config");
            go_on(one_line(line), Stage::ConfigRead, user, "", false, Action::Read { path })
        },
    }
}

/// The steps of a setup that open the channel and push.
fn setup_push(j: &Job, s: &State, r: &Result<String, String>) -> (x: Step)
    requires
        s.stage == Stage::ConfigRead || s.stage == Stage::ConfigWritten || s.stage
            == Stage::Redirected || s.stage == Stage::MainPushed || s.stage == Stage::MasterPushed,
    ensures
        x@ == setup_next(j@, s@, reply_view(*r)),
{
    proof {
        reveal_strlit("");
        assert(""@ =~= seq![]);
    }
    let repo = name_of(j.repo.as_str());
    let user = s.name.as_str();
    let key = key_path(j.home.as_str(), user, repo.as_str());
    match s.stage {
        Stage::ConfigRead => {
            let cfg = given_or(r, "");
            match ssh_config_with(cfg.as_str(), key.as_str()) {
                None => go_on(no_lines(), Stage::Redirected, user, "", false, lead_to_ssh()),
                Some(text) => {
                    let path = cat(j.home.as_str(), "/.ssh/config");
                    let a = Action::Write { path, text };
                    go_on(no_lines(), Stage::ConfigWritten, user, "", false, a)
                },
            }
        },
        Stage::ConfigWritten => match r {
            Ok(_) => go_on(
                one_line("  ✅ SSH 通道配置: github.com → ssh.github.com:443".to_owned()),
                Stage::Redirected,
                user,
                "",
                false,
                lead_to_ssh(),
            ),
            Err(_) => go_on(
                no_lines(),
                Stage::MainPushed,
                user,
                "",
                false,
                push_with_key(key.as_str(), user, repo.as_str(), "main"),
            ),
        },
        Stage::Redirected => go_on(
            no_lines(),
            Stage::MainPushed,
            user,
            "",
            false,
            push_with_key(key.as_str(), user, repo.as_str(), "main"),
        ),
        Stage::MainPushed => match r {
            Ok(_) => finish_setup(j, pushed(user, repo.as_str(), "main")),
            Err(e) => go_on(
                no_lines(),
                Stage::MasterPushed,
                user,
                cat("push 失败: ", e.as_str()).as_str(),
                false,
                push_with_key(key.as_str(), user, repo.as_str(), "master"),
            ),
        },
        _ => match r {
            Ok(_) => finish_setup(j, pushed(user, repo.as_str(), "master")),
            Err(e) => {
                let second = cat("push 失败: ", e.as_str());
                finish_setup(
                    j,
                    one_line(
                        cat4("  ⚠️ 推送未完成: ", s.note.as_str(), " / ", second.as_str()),
                    ),
                )
            },
        },
    }
}

/// The next step of a setup.
pub fn setup_step(j: &Job, s: &State, r: &Result<String, String>) -> (x: Step)
    ensures
        x@ == setup_next(j@, s@, reply_view(*r)),
{
    match s.stage {
        Stage::Start | Stage::UserAsked | Stage::RepoViewed | Stage::RepoCreated => setup_first(
            j,
            s,
            r,
        ),
        Stage::KeyLooked | Stage::KeyMade | Stage::PubRead | Stage::KeyAdded => setup_key(j, s, r),
        Stage::ConfigRead
        | Stage::ConfigWritten
        | Stage::Redirected
        | Stage::MainPushed
        | Stage::MasterPushed => setup_push(j, s, r),
        _ => stop_with(no_lines(), 0),
    }
}

// ---------------------------------------------------------------- pushing

/// Asks for the current branch.
pub open spec fn ask_branch(dir: Seq<char>) -> ActionView {
    ActionView::Run { words: seq!["git"@, "rev-parse"@, "--abbrev-ref"@, "HEAD"@], dir }
}

/// Asks for the address of the origin.
pub open spec fn ask_origin(dir: Seq<char>) -> ActionView {
    ActionView::Run { words: seq!["git"@, "remote"@, "get-url"@, "origin"@], dir }
}

fn branch_question(dir: &str) -> (r: Action)
    ensures
        r@ == ask_branch(dir@),
{
    let w = ["git", "rev-parse", "--abbrev-ref", "HEAD"];
    assert(names(w@) =~= seq!["git"@, "rev-parse"@, "--abbrev-ref"@, "HEAD"@]);
    run(&w, dir)
}

fn origin_question(dir: &str) -> (r: Action)
    ensures
        r@ == ask_origin(dir@),
{
    let w = ["git", "remote", "get-url", "origin"];
    assert(names(w@) =~= seq!["git"@, "remote"@, "get-url"@, "origin"@]);
    run(&w, dir)
}

/// The next step of a push.
pub open spec fn push_next(j: JobView, s: StateView, r: Result<Seq<char>, Seq<char>>) -> StepView {
    match s.stage {
        Stage::Start => if j.branch.len() == 0 {
            go(seq![], Stage::BranchAsked, seq![], seq![], false, ask_branch(j.repo))
        } else {
            go(seq![], Stage::OriginAsked, j.branch, seq![], false, ask_origin(j.repo))
        },
        Stage::BranchAsked => go(
            seq![],
            Stage::OriginAsked,
            given(r, "main"@),
            seq![],
            false,
            ask_origin(j.repo),
        ),
        Stage::OriginAsked => go(
            seq![
                "═══ dsh-tools repo push ═══"@,
                "  分支: "@ + s.name + " | origin: "@ + given(r, seq![]),
            ],
            Stage::Pushed,
            s.name,
            seq![],
            false,
            ActionView::Run {
                words: seq!["git"@, "push"@, "-u"@, "origin"@, s.name],
                dir: j.repo,
            },
        ),
        Stage::Pushed => stop(seq!["  ✅ 已推送（若 GitHub 443 被墙，请用 repo setup 走 SSH）"@], 0),
        _ => stop(seq![], 0),
    }
}

/// The next step of a push.
pub fn push_step(j: &Job, s: &State, r: &Result<String, String>) -> (x: Step)
    ensures
        x@ == push_next(j@, s@, reply_view(*r)),
{
    proof {
        reveal_strlit("");
        assert(""@ =~= seq![]);
    }
    let dir = j.repo.as_str();
    match s.stage {
        Stage::Start => if j.branch.as_str().is_empty() {
            go_on(no_lines(), Stage::BranchAsked, "", "", false, branch_question(dir))
        } else {
            go_on(
                no_lines(),
                Stage::OriginAsked,
                j.branch.as_str(),
                "",
                false,
                origin_question(dir),
            )
        },
        Stage::BranchAsked => go_on(
            no_lines(),
            Stage::OriginAsked,
            given_or(r, "main").as_str(),
            "",
            false,
            origin_question(dir),
        ),
        Stage::OriginAsked => {
            let branch = s.name.as_str();
            let origin = given_or(r, "");
            let mut l: Vec<String> = Vec::new();
            say(&mut l, "═══ dsh-tools repo push ═══");
            say(&mut l, cat4("  分支: ", branch, " | origin: ", origin.as_str()).as_str());
            assert(texts(l@) =~= seq![
                "═══ dsh-tools repo push ═══"@,
                "  分支: "@ + branch@ + " | origin: "@ + origin@,
            ]);
            let w = ["git", "push", "-u", "origin", branch];
            assert(names(w@) =~= seq!["git"@, "push"@, "-u"@, "origin"@, branch@]);
            go_on(l, Stage::Pushed, branch, "", false, run(&w, dir))
        },
        Stage::Pushed => stop_with(
            one_line("  ✅ 已推送（若 GitHub 443 被墙，请用 repo setup 走 SSH）".to_owned()),
            0,
        ),
        _ => stop_with(no_lines(), 0),
    }
}

// ---------------------------------------------------------------- syncing

/// The step that reads the credentials, once the branch is known.
pub open spec fn read_credentials(j: JobView, branch: Seq<char>) -> StepView {
    go(
        seq!["═══ dsh-tools repo sync ═══"@],
        Stage::CredentialsRead,
        branch,
        seq![],
        false,
        ActionView::Read { path: j.home + "/.dsh/repo-pipeline.json"@ },
    )
}

/// What the file of the credentials holds; null where it cannot be read.
pub open spec fn credentials(r: Result<Seq<char>, Seq<char>>) -> JsonView {
    match json_parsed(given(r, seq![])) {
        Ok(v) => v,
        Err(_) => JsonView::Null,
    }
}

/// The step once the credentials are known.
pub open spec fn with_credentials(j: JobView, branch: Seq<char>, v: JsonView) -> StepView {
    let user = v.text_or("giteeUser"@, seq![]);
    let token = v.text_or("giteeToken"@, seq![]);
    if user.len() == 0 || token.len() == 0 {
        stop(
            seq![
                "  ⚠️ 凭据文件未配置 giteeUser/giteeToken（~/.dsh/repo-pipeline.json），无法推送 Gitee"@,
                "  格式: {\"giteeUser\":\"U\",\"giteeToken\":\"T\"}"@,
            ],
            1,
        )
    } else {
        go(
            seq![],
            Stage::GiteePushed,
            branch,
            user,
            false,
            ActionView::Run {
                words: seq![
                    "git"@,
                    "-C"@,
                    j.repo,
                    "push"@,
                    "https://"@ + user + ":"@ + token + "@gitee.com/"@ + user + "/"@ + file_name(
                        j.repo,
                    ) + ".git"@,
                    branch + ":"@ + branch,
                ],
                dir: j.repo,
            },
        )
    }
}

/// The next step of a sync; `v` is what the file of the credentials holds.
pub open spec fn sync_next(
    j: JobView,
    s: StateView,
    r: Result<Seq<char>, Seq<char>>,
    v: JsonView,
) -> StepView {
    match s.stage {
        Stage::Start => if j.repo.len() == 0 {
            stop(seq!["用法: dsh-tools repo sync --repo <路径>"@], 2)
        } else if j.branch.len() == 0 {
            go(seq![], Stage::BranchAsked, seq![], seq![], false, ask_branch(j.repo))
        } else {
            read_credentials(j, j.branch)
        },
        Stage::BranchAsked => read_credentials(j, given(r, "main"@)),
        Stage::CredentialsRead => with_credentials(j, s.name, v),
        Stage::GiteePushed => {
            let l = seq![
                match r {
                    Ok(_) => "  ✅ Gitee 推送成功: "@ + s.note + "/"@ + file_name(j.repo) + " ("@
                        + s.name + ")"@,
                    Err(e) => "  ❌ Gitee 推送失败: "@ + e,
                },
            ];
            if j.actions {
                go(
                    l,
                    Stage::OwnerAsked,
                    s.name,
                    seq![],
                    false,
                    ActionView::Run {
                        words: seq![
                            "git"@,
                            "-C"@,
                            j.repo,
                            "remote"@,
                            "get-url"@,
                            "origin"@,
                        ],
                        dir: j.repo,
                    },
                )
            } else {
                stop(l, 0)
            }
        },
        Stage::OwnerAsked => {
            let owner = match r {
                Ok(u) => owner_in(u),
                Err(_) => seq![],
            };
            if owner.len() == 0 {
                stop(seq![], 0)
            } else {
                go(
                    seq![],
                    Stage::Triggered,
                    owner,
                    seq![],
                    false,
                    ActionView::Run {
                        words: seq![
                            "gh"@,
                            "workflow"@,
                            "run"@,
                            "Sync to Gitee"@,
                            "--repo"@,
                            owner,
                        ],
                        dir: "."@,
                    },
                )
            }
        },
        Stage::Triggered => stop(
            seq![
                match r {
                    Ok(_) => "  ✅ Actions 同步工作流已触发: "@ + s.name,
                    Err(e) => "  ⚠️ 触发 Actions 失败: "@ + e,
                },
            ],
            0,
        ),
        _ => stop(seq![], 0),
    }
}

fn ask_credentials(j: &Job, branch: &str) -> (x: Step)
    ensures
        x@ == read_credentials(j@, branch@),
{
    proof {
        reveal_strlit("");
        assert(""@ =~= seq![]);
    }
    go_on(
        one_line("═══ dsh-tools repo sync ═══".to_owned()),
        Stage::CredentialsRead,
        branch,
        "",
        false,
        Action::Read { path: cat(j.home.as_str(), "/.dsh/repo-pipeline.json") },
    )
}

/// The step of a sync once the credentials are known.
pub fn use_credentials(j: &Job, branch: &str, v: &Json) -> (x: Step)
    ensures
        x@ == with_credentials(j@, branch@, v@),
{
    proof {
        reveal_strlit("");
        assert(""@ =~= seq![]);
    }
    let user = v.text_or("giteeUser", "");
    let token = v.text_or("giteeToken", "");
    if user.as_str().is_empty() || token.as_str().is_empty() {
        let mut l: Vec<String> = Vec::new();
        say(
            &mut l,
            "  ⚠️ 凭据文件未配置 giteeUser/giteeToken（~/.dsh/repo-pipeline.json），无法推送 Gitee",
        );
        say(&mut l, "  格式: {\"giteeUser\":\"U\",\"giteeToken\":\"T\"}");
        assert(texts(l@) =~= seq![
            "  ⚠️ 凭据文件未配置 giteeUser/giteeToken（~/.dsh/repo-pipeline.json），无法推送 Gitee"@,
            "  格式: {\"giteeUser\":\"U\",\"giteeToken\":\"T\"}"@,
        ]);
        return stop_with(l, 1);
    }
    let name = name_of(j.repo.as_str());
    let mut url = cat7(
        "https://",
        user.as_str(),
        ":",
        token.as_str(),
        "@gitee.com/",
        user.as_str(),
        "/",
    );
    url.append(name.as_str());
    url.append(".git");
    let both = cat3(branch, ":", branch);
    let w = ["git", "-C", j.repo.as_str(), "push", url.as_str(), both.as_str()];
    assert(names(w@) =~= seq!["git"@, "-C"@, j.repo@, "push"@, url@, both@]);
    go_on(
        no_lines(),
        Stage::GiteePushed,
        branch,
        user.as_str(),
        false,
        run(&w, j.repo.as_str()),
    )
}

fn credentials_in(r: &Result<String, String>) -> (v: Json)
    ensures
        v@ == credentials(reply_view(*r)),
{
    proof {
        reveal_strlit("");
        assert(""@ =~= seq![]);
    }
    match parse(given_or(r, "").as_str()) {
        Ok(v) => v,
        Err(_) => Json::Null,
    }
}

/// The next step of a sync.
pub fn sync_step(j: &Job, s: &State, r: &Result<String, String>) -> (x: Step)
    ensures
        x@ == sync_next(j@, s@, reply_view(*r), credentials(reply_view(*r))),
{
    proof {
        reveal_strlit("");
        assert(""@ =~= seq![]);
    }
    let dir = j.repo.as_str();
    match s.stage {
        Stage::Start => if dir.is_empty() {
            stop_with(one_line("用法: dsh-tools repo sync --repo <路径>".to_owned()), 2)
        } else if j.branch.as_str().is_empty() {
            go_on(no_lines(), Stage::BranchAsked, "", "", false, branch_question(dir))
        } else {
            ask_credentials(j, j.branch.as_str())
        },
        Stage::BranchAsked => ask_credentials(j, given_or(r, "main").as_str()),
        Stage::CredentialsRead => use_credentials(
            j,
            s.name.as_str(),
            &credentials_in(r),
        ),
        Stage::GiteePushed => {
            let line = match r {
                Ok(_) => {
                    let mut t = cat5(
                        "  ✅ Gitee 推送成功: ",
                        s.note.as_str(),
                        "/",
                        name_of(dir).as_str(),
                        " (",
                    );
                    t.append(s.name.as_str());
                    t.append(")");
                    t
                },
                Err(e) => cat("  ❌ Gitee 推送失败: ", e.as_str()),
            };
            if j.actions {
                let w = ["git", "-C", dir, "remote", "get-url", "origin"];
                assert(names(w@) =~= seq![
                    "git"@,
                    "-C"@,
                    j.repo@,
                    "remote"@,
                    "get-url"@,
                    "origin"@,
                ]);
                go_on(
                    one_line(line),
                    Stage::OwnerAsked,
                    s.name.as_str(),
                    "",
                    false,
                    run(&w, dir),
                )
            } else {
                stop_with(one_line(line), 0)
            }
        },
        Stage::OwnerAsked => {
            let owner = owner_of(r);
            if owner.as_str().is_empty() {
                stop_with(no_lines(), 0)
            } else {
                let w = ["gh", "workflow", "run", "Sync to Gitee", "--repo", owner.as_str()];
                assert(names(w@) =~= seq![
                    "gh"@,
                    "workflow"@,
                    "run"@,
                    "Sync to Gitee"@,
                    "--repo"@,
                    owner@,
                ]);
                go_on(no_lines(), Stage::Triggered, owner.as_str(), "", false, run(&w, "."))
            }
        },
        Stage::Triggered => {
            let line = match r {
                Ok(_) => cat("  ✅ Actions 同步工作流已触发: ", s.name.as_str()),
                Err(e) => cat("  ⚠️ 触发 Actions 失败: ", e.as_str()),
            };
            stop_with(one_line(line), 0)
        },
        _ => stop_with(no_lines(), 0),
    }
}

// ---------------------------------------------------------------- the state

/// A line among some holds a text.
pub open spec fn some_line_holds(ls: Seq<Seq<char>>, p: Seq<char>) -> bool {
    exists|i: int| 0 <= i < ls.len() && contains(#[trigger] ls[i], p)
}

fn line_with(ls: &Vec<String>, p: &str) -> (r: bool)
    ensures
        r == some_line_holds(texts(ls@), p@),
{
    let mut i: usize = 0;
    while i < ls.len()
        invariant
            i <= ls@.len(),
            forall|j: int| 0 <= j < i ==> !contains(#[trigger] texts(ls@)[j], p@),
        decreases ls@.len() - i,
    {
        assert(texts(ls@)[i as int] == ls@[i as int]@);
        if has(ls[i].as_str(), p) {
            return true;
        }
        i += 1;
    }
    false
}

/// Counts the commits of one branch that another lacks.
pub open spec fn count_commits(dir: Seq<char>, range: Seq<char>) -> ActionView {
    ActionView::Run { words: seq!["git"@, "rev-list"@, "--count"@, range], dir }
}

fn commit_count(dir: &str, range: &str) -> (r: Action)
    ensures
        r@ == count_commits(dir@, range@),
{
    let w = ["git", "rev-list", "--count", range];
    assert(names(w@) =~= seq!["git"@, "rev-list"@, "--count"@, range@]);
    run(&w, dir)
}

/// A sign for yes or no.
pub open spec fn sign(b: bool) -> Seq<char> {
    if b {
        "✅"@
    } else {
        "❌"@
    }
}

fn sign_of(b: bool) -> (r: &'static str)
    ensures
        r@ == sign(b),
{
    if b {
        "✅"
    } else {
        "❌"
    }
}

/// The next step of asking for the state.
pub open spec fn status_next(
    j: JobView,
    s: StateView,
    r: Result<Seq<char>, Seq<char>>,
) -> StepView {
    match s.stage {
        Stage::Start => go(
            seq!["═══ dsh-tools repo status ═══"@],
            Stage::BranchAsked,
            seq![],
            seq![],
            false,
            ask_branch(j.repo),
        ),
        Stage::BranchAsked => go(
            seq!["  本地分支: "@ + given(r, "?"@)],
            Stage::RemotesAsked,
            given(r, "?"@),
            seq![],
            false,
            ActionView::Run { words: seq!["git"@, "remote"@, "-v"@], dir: j.repo },
        ),
        Stage::RemotesAsked => {
            let ls = lines(given(r, seq![]));
            let github = some_line_holds(ls, "github.com"@);
            go(
                seq![
                    "  GitHub remote: "@ + sign(github),
                    "  Gitee remote:  "@ + sign(some_line_holds(ls, "gitee.com"@)),
                ],
                Stage::Fetched,
                s.name,
                seq![],
                github,
                ActionView::Run { words: seq!["git"@, "fetch"@, "--all"@], dir: j.repo },
            )
        },
        Stage::Fetched => go(
            seq![],
            Stage::AheadCounted,
            s.name,
            seq![],
            s.github,
            count_commits(j.repo, "origin/"@ + s.name + ".."@ + s.name),
        ),
        Stage::AheadCounted => go(
            seq![],
            Stage::BehindCounted,
            s.name,
            given(r, "?"@),
            s.github,
            count_commits(j.repo, s.name + "..origin/"@ + s.name),
        ),
        Stage::BehindCounted => {
            let l = seq![
                "  与 origin/"@ + s.name + " 比较: ahead="@ + s.note + " behind="@ + given(r, "?"@),
            ];
            if s.github {
                go(l, Stage::OwnerAsked, s.name, seq![], true, ask_origin(j.repo))
            } else {
                stop(l, 0)
            }
        },
        Stage::OwnerAsked => {
            let owner = match r {
                Ok(u) => owner_in(u),
                Err(_) => seq![],
            };
            if owner.len() == 0 {
                stop(seq![], 0)
            } else {
                go(
                    seq![],
                    Stage::RunsAsked,
                    s.name,
                    seq![],
                    true,
                    ActionView::Run {
                        words: seq![
                            "gh"@,
                            "run"@,
                            "list"@,
                            "--repo"@,
                            owner,
                            "--limit"@,
                            "5"@,
                        ],
                        dir: "."@,
                    },
                )
            }
        },
        Stage::RunsAsked => stop(
            match r {
                Ok(t) => seq!["  Actions 最近运行:"@] + at_most(lines(t), 5).map_values(
                    |x: Seq<char>| "    "@ + x,
                ),
                Err(e) => seq!["  ⚠️ Actions 查询失败: "@ + e],
            },
            0,
        ),
        _ => stop(seq![], 0),
    }
}

fn run_lines(t: &str) -> (l: Vec<String>)
    ensures
        texts(l@) == seq!["  Actions 最近运行:"@] + at_most(lines(t@), 5).map_values(
            |x: Seq<char>| "    "@ + x,
        ),
{
    let ls = lines_of(t);
    let ghost u = lines(t@);
    assert(u.len() == ls@.len());
    let ghost want = at_most(u, 5).map_values(|x: Seq<char>| "    "@ + x);
    let k: usize = if ls.len() > 5 {
        5
    } else {
        ls.len()
    };
    let mut l: Vec<String> = Vec::new();
    say(&mut l, "  Actions 最近运行:");
    let ghost base = texts(l@);
    assert(base =~= seq!["  Actions 最近运行:"@]);
    let mut i: usize = 0;
    assert(base + want.take(0) =~= base);
    while i < k
        invariant
            i <= k <= ls@.len(),
            k == want.len(),
            u == texts(ls@),
            want == at_most(u, 5).map_values(|x: Seq<char>| "    "@ + x),
            texts(l@) == base + want.take(i as int),
        decreases k - i,
    {
        assert(u[i as int] == ls@[i as int]@);
        say(&mut l, cat("    ", ls[i].as_str()).as_str());
        assert(texts(l@) =~= base + want.take(i + 1));
        i += 1;
    }
    assert(want.take(i as int) =~= want);
    l
}

/// The steps that look at the branch and the remotes.
fn status_first(j: &Job, s: &State, r: &Result<String, String>) -> (x: Step)
    requires
        s.stage == Stage::Start || s.stage == Stage::BranchAsked || s.stage == Stage::RemotesAsked,
    ensures
        x@ == status_next(j@, s@, reply_view(*r)),
{
    proof {
        reveal_strlit("");
        assert(""@ =~= seq![]);
    }
    let dir = j.repo.as_str();
    match s.stage {
        Stage::Start => go_on(
            one_line("═══ dsh-tools repo status ═══".to_owned()),
            Stage::BranchAsked,
            "",
            "",
            false,
            branch_question(dir),
        ),
        Stage::BranchAsked => {
            let branch = given_or(r, "?");
            let w = ["git", "remote", "-v"];
            assert(names(w@) =~= seq!["git"@, "remote"@, "-v"@]);
            go_on(
                one_line(cat("  本地分支: ", branch.as_str())),
                Stage::RemotesAsked,
                branch.as_str(),
                "",
                false,
                run(&w, dir),
            )
        },
        _ => {
            let ls = lines_of(given_or(r, "").as_str());
            let github = line_with(&ls, "github.com");
            let gitee = line_with(&ls, "gitee.com");
            let mut l: Vec<String> = Vec::new();
            say(&mut l, cat("  GitHub remote: ", sign_of(github)).as_str());
            say(&mut l, cat("  Gitee remote:  ", sign_of(gitee)).as_str());
            assert(texts(l@) =~= seq![
                "  GitHub remote: "@ + sign(github),
                "  Gitee remote:  "@ + sign(gitee),
            ]);
            let w = ["git", "fetch", "--all"];
            assert(names(w@) =~= seq!["git"@, "fetch"@, "--all"@]);
            go_on(l, Stage::Fetched, s.name.as_str(), "", github, run(&w, dir))
        },
    }
}

/// The next step of asking for the state.
pub fn status_step(j: &Job, s: &State, r: &Result<String, String>) -> (x: Step)
    ensures
        x@ == status_next(j@, s@, reply_view(*r)),
{
    proof {
        reveal_strlit("");
        assert(""@ =~= seq![]);
    }
    let dir = j.repo.as_str();
    let branch = s.name.as_str();
    match s.stage {
        Stage::Start | Stage::BranchAsked | Stage::RemotesAsked => status_first(j, s, r),
        Stage::Fetched => {
            let range = cat4("origin/", branch, "..", branch);
            go_on(
                no_lines(),
                Stage::AheadCounted,
                branch,
                "",
                s.github,
                commit_count(dir, range.as_str()),
            )
        },
        Stage::AheadCounted => {
            let range = cat3(branch, "..origin/", branch);
            go_on(
                no_lines(),
                Stage::BehindCounted,
                branch,
                given_or(r, "?").as_str(),
                s.github,
                commit_count(dir, range.as_str()),
            )
        },
        Stage::BehindCounted => {
            let mut t = cat5("  与 origin/", branch, " 比较: ahead=", s.note.as_str(), " behind=");
            t.append(given_or(r, "?").as_str());
            if s.github {
                go_on(one_line(t), Stage::OwnerAsked, branch, "", true, origin_question(dir))
            } else {
                stop_with(one_line(t), 0)
            }
        },
        Stage::OwnerAsked => {
            let owner = owner_of(r);
            if owner.as_str().is_empty() {
                stop_with(no_lines(), 0)
            } else {
                let w = ["gh", "run", "list", "--repo", owner.as_str(), "--limit", "5"];
                assert(names(w@) =~= seq![
                    "gh"@,
                    "run"@,
                    "list"@,
                    "--repo"@,
                    owner@,
                    "--limit"@,
                    "5"@,
                ]);
                go_on(no_lines(), Stage::RunsAsked, branch, "", true, run(&w, "."))
            }
        },
        Stage::RunsAsked => match r {
            Ok(t) => stop_with(run_lines(t.as_str()), 0),
            Err(e) => stop_with(one_line(cat("  ⚠️ Actions 查询失败: ", e.as_str())), 0),
        },
        _ => stop_with(no_lines(), 0),
    }
}

// ---------------------------------------------------------------- jobs as a whole

/// The next step of a job; `v` is what the file of the credentials holds.
pub open spec fn next(
    j: JobView,
    s: StateView,
    r: Result<Seq<char>, Seq<char>>,
    v: JsonView,
) -> StepView {
    match j.kind {
        Kind::Setup => setup_next(j, s, r),
        Kind::Push => push_next(j, s, r),
        Kind::Sync => sync_next(j, s, r, v),
        Kind::Status => status_next(j, s, r),
    }
}

/// The start of a job.
pub fn begin() -> (r: State)
    ensures
        r@ == (StateView { stage: Stage::Start, name: seq![], note: seq![], github: false }),
{
    State { stage: Stage::Start, name: String::new(), note: String::new(), github: false }
}

/// The next step of a job, given the outcome of the action before it. At the start
/// the outcome does not matter.
pub fn step(j: &Job, s: &State, r: &Result<String, String>) -> (x: Step)
    ensures
        x@ == next(j@, s@, reply_view(*r), credentials(reply_view(*r))),
{
    match j.kind {
        Kind::Setup => setup_step(j, s, r),
        Kind::Push => push_step(j, s, r),
        Kind::Sync => sync_step(j, s, r),
        Kind::Status => status_step(j, s, r),
    }
}

/// How many steps a job takes at the most from a stage on.
pub open spec fn steps_left(k: Kind, s: Stage) -> nat {
    match (k, s) {
        (_, Stage::Ended) => 0,
        (_, Stage::Start) => 13,
        (_, Stage::UserAsked) => 12,
        (_, Stage::RepoViewed) => 11,
        (_, Stage::RepoCreated) => 10,
        (_, Stage::KeyLooked) => 9,
        (_, Stage::KeyMade) => 8,
        (_, Stage::PubRead) => 7,
        (_, Stage::KeyAdded) => 6,
        (_, Stage::ConfigRead) => 5,
        (_, Stage::ConfigWritten) => 4,
        (_, Stage::Redirected) => 3,
        (_, Stage::MainPushed) => 2,
        (_, Stage::MasterPushed) => 1,
        (_, Stage::BranchAsked) => 8,
        (_, Stage::OriginAsked) => 2,
        (_, Stage::Pushed) => 1,
        (_, Stage::CredentialsRead) => 4,
        (_, Stage::GiteePushed) => 3,
        (_, Stage::RemotesAsked) => 6,
        (_, Stage::Fetched) => 5,
        (_, Stage::AheadCounted) => 4,
        (_, Stage::BehindCounted) => 3,
        (_, Stage::OwnerAsked) => 2,
        (_, Stage::Triggered) => 1,
        (_, Stage::RunsAsked) => 1,
    }
}

/// Every job ends: each step brings it nearer to its end, and it ends exactly with an
/// exit code, which is zero, one or two.
pub proof fn jobs_end(j: JobView, s: StateView, r: Result<Seq<char>, Seq<char>>, v: JsonView)
    ensures
        ({
            let n = next(j, s, r, v);
            &&& s.stage != Stage::Ended ==> steps_left(j.kind, n.state.stage) < steps_left(
                j.kind,
                s.stage,
            )
            &&& n.state.stage == Stage::Ended <==> n.action is End
            &&& n.action matches ActionView::End { code } ==> 0 <= code <= 2
        }),
{
}

/// A setup pushes only with the key of the repository that it named: nothing is pushed
/// before the key was registered, and every push goes to that repository.
pub proof fn pushes_go_with_the_key(
    j: JobView,
    s: StateView,
    r: Result<Seq<char>, Seq<char>>,
    v: JsonView,
)
    ensures
        next(j, s, r, v).action matches ActionView::Push { ssh, url, branch } ==> {
            &&& j.kind == Kind::Setup
            &&& steps_left(j.kind, s.stage) < steps_left(j.kind, Stage::KeyAdded)
            &&& push_branch(key_file(j.home, s.name, file_name(j.repo)), s.name, file_name(j.repo), branch)
                == (ActionView::Push { ssh, url, branch })
            &&& branch == "main"@ || branch == "master"@
        },
{
}

/// The token goes nowhere but into the address of the push to Gitee: what is printed
/// does not depend on which token it is.
pub proof fn token_is_not_printed(
    j: JobView,
    s: StateView,
    r: Result<Seq<char>, Seq<char>>,
    a: JsonView,
    b: JsonView,
)
    requires
        a.text_or("giteeUser"@, seq![]) == b.text_or("giteeUser"@, seq![]),
        a.text_or("giteeToken"@, seq![]).len() > 0,
        b.text_or("giteeToken"@, seq![]).len() > 0,
    ensures
        next(j, s, r, a).lines == next(j, s, r, b).lines,
        next(j, s, r, a).state == next(j, s, r, b).state,
{
}

// ---------------------------------------------------------------- what the jobs do

/// A subcommand names its job, and no other word does.
pub proof fn jobs_have_names(sub: Seq<char>)
    ensures
        kind_of(sub) == Some(Kind::Setup) <==> sub == "setup"@,
        kind_of(sub) == Some(Kind::Push) <==> sub == "push"@,
        kind_of(sub) == Some(Kind::Sync) <==> sub == "sync"@,
        kind_of(sub) == Some(Kind::Status) <==> sub == "status"@,
{
    reveal_strlit("setup");
    reveal_strlit("push");
    reveal_strlit("sync");
    reveal_strlit("status");
    assert("setup"@.len() == 5 && "push"@.len() == 4 && "sync"@.len() == 4 && "status"@.len() == 6);
    assert("push"@[0] == 'p' && "sync"@[0] == 's');
}

proof fn absent_stays(s: Seq<char>, p: Seq<char>)
    requires
        !contains(s, p),
    ensures
        replace(s, p, seq![]) == s,
{
    contains_iff_found(s, p);
    assert(split(s, p) =~= seq![s]);
}

proof fn start_is_taken_off(p: Seq<char>, s: Seq<char>)
    requires
        p.len() > 0,
        !contains(s, p),
    ensures
        replace(p + s, p, seq![]) == s,
{
    let e = Seq::<char>::empty();
    found_there(e, p, s);
    assert(e + p + s =~= p + s);
    let t = p + s;
    assert(t.take(0) =~= e);
    assert(t.skip(p.len() as int) =~= s);
    contains_iff_found(s, p);
    assert(split(s, p) =~= seq![s]);
    let parts = split(t, p);
    assert(parts =~= seq![e, s]);
    assert(parts.drop_last() =~= seq![e]);
    reveal_with_fuel(join, 3);
    assert(join(parts, e) =~= s);
}

/// The owner and the name of a repository are read from its address, by SSH and by HTTPS,
/// without what ends it.
pub proof fn owners_are_read(name: Seq<char>)
    requires
        !contains(name + ".git"@, "git@github.com:"@),
        !contains(name + ".git"@, "https://github.com/"@),
        !contains("https://github.com/"@ + (name + ".git"@), "git@github.com:"@),
        !ends(name, ".git"@),
    ensures
        owner_in("git@github.com:"@ + (name + ".git"@)) == name,
        owner_in("https://github.com/"@ + (name + ".git"@)) == name,
{
    reveal_strlit("git@github.com:");
    reveal_strlit("https://github.com/");
    reveal_strlit(".git");
    let s = name + ".git"@;
    start_is_taken_off("git@github.com:"@, s);
    start_is_taken_off("https://github.com/"@, s);
    absent_stays(s, "https://github.com/"@);
    absent_stays("https://github.com/"@ + s, "git@github.com:"@);
    let k = s.len() - 4;
    assert(s.subrange(k, k + 4) =~= ".git"@);
    assert(s.take(k) =~= name);
    reveal_with_fuel(strip_suffixes, 2);
    assert(strip_suffixes(s, ".git"@) == name);
}

/// A push sends the branch that was named, or the one that the repository is on, and `main`
/// where that is not known; it goes to the origin, in the repository.
pub proof fn the_branch_is_pushed(j: JobView, s: StateView, r: Result<Seq<char>, Seq<char>>)
    requires
        j.kind == Kind::Push,
    ensures
        s.stage is Start && j.branch.len() > 0 ==> push_next(j, s, r).state.name == j.branch,
        s.stage is BranchAsked ==> push_next(j, s, r).state.name == match r {
            Ok(b) => b,
            Err(_) => "main"@,
        },
        s.stage is OriginAsked ==> push_next(j, s, r).action == (ActionView::Run {
            words: seq!["git"@, "push"@, "-u"@, "origin"@, s.name],
            dir: j.repo,
        }),
{
}

/// A sync without a repository ends with the code 2, and one without credentials with 1;
/// with them it pushes the branch onto itself, under the user of the credentials. The
/// workflow on GitHub is started unless that was not wanted.
pub proof fn syncs_need_credentials(
    j: JobView,
    s: StateView,
    r: Result<Seq<char>, Seq<char>>,
    v: JsonView,
    user: Seq<char>,
    token: Seq<char>,
)
    ensures
        s.stage is Start && j.repo.len() == 0 ==> sync_next(j, s, r, v).action == (
        ActionView::End { code: 2 }),
        s.stage is CredentialsRead && (v.at("giteeUser"@) is Null || v.at("giteeToken"@) is Null)
            ==> sync_next(j, s, r, v).action == (ActionView::End { code: 1 }),
        s.stage is CredentialsRead && v.at("giteeUser"@) == JsonView::Str(user) && v.at(
            "giteeToken"@,
        ) == JsonView::Str(token) && user.len() > 0 && token.len() > 0 ==> (sync_next(
            j,
            s,
            r,
            v,
        ).action matches ActionView::Run { words, dir } && words.len() == 6 && words[5] == s.name
            + ":"@ + s.name && words[2] == j.repo && dir == j.repo),
        s.stage is GiteePushed && !j.actions ==> sync_next(j, s, r, v).action == (
        ActionView::End { code: 0 }),
        s.stage is GiteePushed && j.actions ==> sync_next(j, s, r, v).action is Run,
{
}

/// A setup without a repository ends with the code 2. A repository that is there is not made
/// again, one that is not is made as visible as was wanted, and where that fails the setup
/// ends with 1. The channel is written into the configuration only where it is not there
/// yet, behind what is there. `main` is pushed first, and `master` only where that failed.
pub proof fn setups_go_step_by_step(j: JobView, s: StateView, r: Result<Seq<char>, Seq<char>>)
    ensures
        s.stage is Start && j.repo.len() == 0 ==> setup_next(j, s, r).action == (ActionView::End {
            code: 2,
        }),
        s.stage is RepoViewed && r is Ok ==> setup_next(j, s, r).action is Look,
        s.stage is RepoViewed && r is Err ==> (setup_next(j, s, r).action
            matches ActionView::Run { words, dir } && words.len() == 6 && words[2] == "create"@
            && words[4] == "--"@ + j.visibility),
        s.stage is RepoCreated && r is Err ==> setup_next(j, s, r).action == (ActionView::End {
            code: 1,
        }),
        s.stage is KeyLooked && r is Ok ==> setup_next(j, s, r).action is Read,
        s.stage is ConfigRead ==> (setup_next(j, s, r).action matches ActionView::Write {
            path,
            text,
        } ==> {
            &&& path == j.home + "/.ssh/config"@
            &&& r matches Ok(c) ==> !contains(c, "ssh.github.com"@) && text.take(c.len() as int)
                == c
        }),
        s.stage is ConfigRead && (r matches Ok(c) && contains(c, "ssh.github.com"@))
            ==> setup_next(j, s, r).action !is Write,
        s.stage is Redirected ==> (setup_next(j, s, r).action matches ActionView::Push {
            branch,
            ..
        } && branch == "main"@),
        s.stage is MainPushed && r is Ok ==> setup_next(j, s, r).action == (ActionView::End {
            code: 0,
        }),
        s.stage is MainPushed && r is Err ==> (setup_next(j, s, r).action
            matches ActionView::Push { branch, .. } && branch == "master"@),
{
    let n = setup_next(j, s, r);
    if s.stage is ConfigRead {
        if let Ok(c) = r {
            if let ActionView::Write { path, text } = n.action {
                assert(text.take(c.len() as int) =~= c);
            }
        }
    }
}

/// The state tells how far a branch is ahead of its origin and how far behind it, in this
/// order.
pub proof fn branches_are_compared(j: JobView, s: StateView, r: Result<Seq<char>, Seq<char>>)
    ensures
        s.stage is Fetched ==> status_next(j, s, r).action == (ActionView::Run {
            words: seq!["git"@, "rev-list"@, "--count"@, "origin/"@ + s.name + ".."@ + s.name],
            dir: j.repo,
        }),
        s.stage is AheadCounted ==> status_next(j, s, r).action == (ActionView::Run {
            words: seq!["git"@, "rev-list"@, "--count"@, s.name + "..origin/"@ + s.name],
            dir: j.repo,
        }),
        s.stage is AheadCounted ==> (r matches Ok(n) ==> status_next(j, s, r).state.note == n),
        s.stage is BehindCounted ==> (r matches Ok(n) ==> status_next(j, s, r).lines[0]
            == "  与 origin/"@ + s.name + " 比较: ahead="@ + s.note + " behind="@ + n),
        s.stage is RemotesAsked ==> (r matches Ok(t) ==> status_next(j, s, r).state.github
            == exists|i: int|
            0 <= i < lines(t).len() && contains(#[trigger] lines(t)[i], "github.com"@)),
{
}

} // verus!
