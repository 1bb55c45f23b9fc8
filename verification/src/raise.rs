//! The run of the command that raises the version of a project: which files are read and
//! written, which commands run, and in which order.
//!
//! A step decides, from how far the run is and from what the last action gave, what is
//! printed and what is done next.
use vstd::prelude::*;
use crate::args::names;
use crate::num::dec;
use crate::path::{path_under, under};
use crate::report::say;
use crate::text::{cat, cat3, cat4, maybe, texts};
use crate::version::{
    bump_project, bumped_project, can_raise, changelog_with, commit_message, commit_text,
    current_version, each_kind_raises_its_number, known_kind, plan_from, plan_lines,
    project_version, raised, section, tag_name, updated_changelog, version_of, version_refusal,
    version_text, version_usage, Plan, Project, VersionArgs,
};

verus! {

/// Which action the run waits for.
#[derive(Clone, Copy, PartialEq, Eq, Structural, Debug)]
pub enum Stage {
    Start,
    InsideAsked,
    PackageLooked,
    PackageRead,
    CargoLooked,
    CargoRead,
    VersionWritten,
    ChangelogLooked,
    ChangelogRead,
    ChangelogWritten,
    Added,
    Committed,
    Tagged,
    Ended,
}

/// How far the run is: the stage, the new version, whether the project is one of Node, and
/// whether there was a changelog.
pub struct State {
    pub stage: Stage,
    pub version: String,
    pub node: bool,
    pub logged: bool,
}

/// How far the run is, as texts.
#[verifier::ext_equal]
pub struct StateView {
    pub stage: Stage,
    pub version: Seq<char>,
    pub node: bool,
    pub logged: bool,
}

impl View for State {
    type V = StateView;

    open spec fn view(&self) -> StateView {
        StateView {
            stage: self.stage,
            version: self.version@,
            node: self.node,
            logged: self.logged,
        }
    }
}

/// What is to be done next.
pub enum Action {
    /// Run a command in a directory; the reply is what it printed.
    Run { words: Vec<String>, dir: String },
    /// Look whether a file exists; the reply is a failure where it does not.
    Look { path: String },
    /// Read a file.
    Read { path: String },
    /// Write a file.
    Write { path: String, text: String },
    /// End with an exit code.
    End { code: i32 },
    /// Break off: the new version does not fit into 64 bits, or `package.json` holds a
    /// value that takes no version.
    Abort,
}

/// What is to be done next, as texts.
#[verifier::ext_equal]
pub enum ActionView {
    Run { words: Seq<Seq<char>>, dir: Seq<char> },
    Look { path: Seq<char> },
    Read { path: Seq<char> },
    Write { path: Seq<char>, text: Seq<char> },
    End { code: i32 },
    Abort,
}

impl View for Action {
    type V = ActionView;

    open spec fn view(&self) -> ActionView {
        match *self {
            Action::Run { words, dir } => ActionView::Run { words: texts(words@), dir: dir@ },
            Action::Look { path } => ActionView::Look { path: path@ },
            Action::Read { path } => ActionView::Read { path: path@ },
            Action::Write { path, text } => ActionView::Write { path: path@, text: text@ },
            Action::End { code } => ActionView::End { code },
            Action::Abort => ActionView::Abort,
        }
    }
}

/// A step of the run.
pub struct Step {
    pub lines: Vec<String>,
    pub state: State,
    pub action: Action,
}

/// A step of the run, as texts.
#[verifier::ext_equal]
pub struct StepView {
    pub lines: Seq<Seq<char>>,
    pub state: StateView,
    pub action: ActionView,
}

impl View for Step {
    type V = StepView;

    open spec fn view(&self) -> StepView {
        StepView { lines: texts(self.lines@), state: self.state@, action: self.action@ }
    }
}

// ---------------------------------------------------------------- the row of steps

/// A step that prints some lines and goes on.
pub open spec fn go(
    lines: Seq<Seq<char>>,
    stage: Stage,
    version: Seq<char>,
    node: bool,
    logged: bool,
    action: ActionView,
) -> StepView {
    StepView { lines, state: StateView { stage, version, node, logged }, action }
}

/// A step that prints some lines and ends.
pub open spec fn stop(lines: Seq<Seq<char>>, code: i32) -> StepView {
    go(lines, Stage::Ended, seq![], false, false, ActionView::End { code })
}

/// A step that prints some lines and breaks off.
pub open spec fn abort(lines: Seq<Seq<char>>) -> StepView {
    go(lines, Stage::Ended, seq![], false, false, ActionView::Abort)
}

/// The command that asks whether a directory lies in a repository.
pub open spec fn ask_inside() -> Seq<Seq<char>> {
    seq!["git"@, "rev-parse"@, "--is-inside-work-tree"@]
}

/// The command that adds all changes.
pub open spec fn add_all() -> Seq<Seq<char>> {
    seq!["git"@, "add"@, "-A"@]
}

/// The command that commits a version.
pub open spec fn commit_version(ver: Seq<char>, desc: Seq<char>) -> Seq<Seq<char>> {
    seq!["git"@, "commit"@, "-m"@, commit_text(ver, desc)]
}

/// The command that tags a version.
pub open spec fn tag_version(ver: Seq<char>) -> Seq<Seq<char>> {
    seq!["git"@, "tag"@, "v"@ + ver]
}

/// The name of the file that gives the version of a project.
pub open spec fn file_name(node: bool) -> Seq<char> {
    if node {
        "package.json"@
    } else {
        "Cargo.toml"@
    }
}

/// The file that gives the version of a project.
pub open spec fn version_file(a: VersionArgs, node: bool) -> Seq<char> {
    under(a.repo@, file_name(node))
}

/// The changelog of a project.
pub open spec fn changelog_file(a: VersionArgs) -> Seq<char> {
    under(a.repo@, "CHANGELOG.md"@)
}

/// A step that goes on without a version yet.
pub open spec fn look_on(stage: Stage, action: ActionView) -> StepView {
    go(seq![], stage, seq![], false, false, action)
}

/// The first step: arguments that are wrong end the run, a dry run goes straight to the
/// files, any other asks first whether there is a repository.
pub open spec fn first_step(a: VersionArgs) -> StepView {
    if a.desc@.len() == 0 {
        stop(version_usage(), 2)
    } else if !known_kind(a.kind@) {
        stop(seq!["错误: --type 必须是 fix/feat/breaking"@], 2)
    } else if a.dry_run {
        look_on(Stage::PackageLooked, ActionView::Look { path: version_file(a, true) })
    } else {
        look_on(Stage::InsideAsked, ActionView::Run { words: ask_inside(), dir: a.repo@ })
    }
}

/// The step that raises the version in the file of a project. A dry run ends here.
pub open spec fn raise_file(a: VersionArgs, p: Project, node: bool) -> StepView {
    match project_version(p) {
        None => stop(seq!["错误: 未找到 package.json 或 Cargo.toml"@], 1),
        Some(c) => match version_of(c) {
            None => stop(seq!["错误: "@ + ("无法解析版本号: "@ + c)], 1),
            Some(v) => {
                let lines = plan_lines(a.repo@, a.kind@, v);
                let ver = version_text(raised(v, a.kind@));
                if !can_raise(c, a.kind@) {
                    abort(seq![])
                } else if a.dry_run {
                    stop(lines.push("  [dry-run] 预览完成，未执行任何变更"@), 0)
                } else {
                    match bumped_project(p, ver) {
                        Ok(Some(t)) => go(
                            lines,
                            Stage::VersionWritten,
                            ver,
                            node,
                            false,
                            ActionView::Write { path: version_file(a, node), text: t },
                        ),
                        Ok(None) => abort(lines),
                        Err(e) => stop(lines.push("错误: "@ + e), 1),
                    }
                }
            },
        },
    }
}

/// The step that writes the changelog.
pub open spec fn write_log(
    a: VersionArgs,
    s: StateView,
    held: Option<Seq<char>>,
    date: Seq<char>,
) -> StepView {
    go(
        seq![],
        Stage::ChangelogWritten,
        s.version,
        s.node,
        held is Some,
        ActionView::Write {
            path: changelog_file(a),
            text: updated_changelog(held, section(s.version, date, a.kind@, a.desc@)),
        },
    )
}

/// The lines behind the commit.
pub open spec fn last_lines(ver: Seq<char>, tag: Result<String, String>) -> Seq<Seq<char>> {
    seq![
        match tag {
            Ok(_) => "  ✅ git tag: "@ + ("v"@ + ver),
            Err(e) => "  警告: tag 已存在或失败: "@ + e@,
        },
        "  推送提示: git push origin main && git push origin tag "@ + ("v"@ + ver),
        "  （若 GitHub 主站 443 被墙，用 REST API 建 ref 兜底）"@,
        "═══ 完成 ═══"@,
    ]
}

/// The step of a run that is as far as `s`, where the last action gave `reply`.
pub open spec fn next(
    a: VersionArgs,
    s: StateView,
    reply: Result<String, String>,
    date: Seq<char>,
) -> StepView {
    match s.stage {
        Stage::Start => first_step(a),
        Stage::InsideAsked => match reply {
            Ok(_) => look_on(
                Stage::PackageLooked,
                ActionView::Look { path: version_file(a, true) },
            ),
            Err(e) => stop(seq!["错误: "@ + e@ + "（--repo 需指向 git 仓库）"@], 1),
        },
        Stage::PackageLooked => match reply {
            Ok(_) => look_on(
                Stage::PackageRead,
                ActionView::Read { path: version_file(a, true) },
            ),
            Err(_) => look_on(
                Stage::CargoLooked,
                ActionView::Look { path: version_file(a, false) },
            ),
        },
        Stage::PackageRead => raise_file(a, Project::Node(reply), true),
        Stage::CargoLooked => match reply {
            Ok(_) => look_on(Stage::CargoRead, ActionView::Read { path: version_file(a, false) }),
            Err(_) => raise_file(a, Project::Unknown, false),
        },
        Stage::CargoRead => raise_file(a, Project::Rust(reply), false),
        Stage::VersionWritten => match reply {
            Ok(_) => go(
                seq!["  ✅ "@ + file_name(s.node) + ": version -> "@ + s.version],
                Stage::ChangelogLooked,
                s.version,
                s.node,
                false,
                ActionView::Look { path: changelog_file(a) },
            ),
            Err(e) => stop(seq!["错误: 写 "@ + file_name(s.node) + ": "@ + e@], 1),
        },
        Stage::ChangelogLooked => match reply {
            Ok(_) => go(
                seq![],
                Stage::ChangelogRead,
                s.version,
                s.node,
                true,
                ActionView::Read { path: changelog_file(a) },
            ),
            Err(_) => write_log(a, s, None, date),
        },
        Stage::ChangelogRead => match reply {
            Ok(t) => write_log(a, s, Some(t@), date),
            Err(e) => stop(seq!["错误: 读 CHANGELOG: "@ + e@], 1),
        },
        Stage::ChangelogWritten => match reply {
            Ok(_) => go(
                seq!["  ✅ CHANGELOG.md: 追加 ["@ + s.version + "] "@ + a.desc@],
                Stage::Added,
                s.version,
                s.node,
                s.logged,
                ActionView::Run { words: add_all(), dir: a.repo@ },
            ),
            Err(e) => stop(
                seq![
                    (if s.logged {
                        "错误: 写 CHANGELOG: "@
                    } else {
                        "错误: 创建 CHANGELOG: "@
                    }) + e@,
                ],
                1,
            ),
        },
        Stage::Added => go(
            match reply {
                Ok(_) => seq![],
                Err(e) => seq!["警告: git add 失败（可能有大文件被忽略）: "@ + e@],
            },
            Stage::Committed,
            s.version,
            s.node,
            s.logged,
            ActionView::Run { words: commit_version(s.version, a.desc@), dir: a.repo@ },
        ),
        Stage::Committed => match reply {
            Ok(_) => go(
                seq!["  ✅ git commit: "@ + commit_text(s.version, a.desc@)],
                Stage::Tagged,
                s.version,
                s.node,
                s.logged,
                ActionView::Run { words: tag_version(s.version), dir: a.repo@ },
            ),
            Err(e) => stop(seq!["警告: git commit 失败（可能无变更或无身份）: "@ + e@], 1),
        },
        Stage::Tagged => stop(last_lines(s.version, reply), 0),
        Stage::Ended => stop(seq![], 0),
    }
}

fn go_on(
    lines: Vec<String>,
    stage: Stage,
    version: &str,
    node: bool,
    logged: bool,
    action: Action,
) -> (r: Step)
    ensures
        r@ == go(texts(lines@), stage, version@, node, logged, action@),
{
    Step { lines, state: State { stage, version: version.to_owned(), node, logged }, action }
}

fn look(stage: Stage, action: Action) -> (r: Step)
    ensures
        r@ == look_on(stage, action@),
{
    let lines: Vec<String> = Vec::new();
    assert(texts(lines@) =~= seq![]);
    proof {
        reveal_strlit("");
        assert(""@ =~= seq![]);
    }
    go_on(lines, stage, "", false, false, action)
}

fn stop_with(lines: Vec<String>, code: i32) -> (r: Step)
    ensures
        r@ == stop(texts(lines@), code),
{
    proof {
        reveal_strlit("");
        assert(""@ =~= seq![]);
    }
    go_on(lines, Stage::Ended, "", false, false, Action::End { code })
}

fn abort_with(lines: Vec<String>) -> (r: Step)
    ensures
        r@ == abort(texts(lines@)),
{
    proof {
        reveal_strlit("");
        assert(""@ =~= seq![]);
    }
    go_on(lines, Stage::Ended, "", false, false, Action::Abort)
}

fn line(s: &str) -> (r: Vec<String>)
    ensures
        texts(r@) == seq![s@],
{
    let mut v: Vec<String> = Vec::new();
    assert(texts(v@) =~= seq![]);
    say(&mut v, s);
    assert(texts(v@) =~= seq![s@]);
    v
}

fn run(words: &[&str], dir: &str) -> (r: Action)
    ensures
        r@ == (ActionView::Run { words: names(words@), dir: dir@ }),
{
    let mut v: Vec<String> = Vec::new();
    let mut i: usize = 0;
    while i < words.len()
        invariant
            i <= words@.len(),
            v@.len() == i,
            forall|j: int| 0 <= j < i ==> (#[trigger] v@[j])@ == words@[j]@,
        decreases words@.len() - i,
    {
        v.push(words[i].to_owned());
        i += 1;
    }
    assert(texts(v@) =~= names(words@));
    Action::Run { words: v, dir: dir.to_owned() }
}

fn name_of_file(node: bool) -> (r: &'static str)
    ensures
        r@ == file_name(node),
{
    if node {
        "package.json"
    } else {
        "Cargo.toml"
    }
}

fn path_of_version(a: &VersionArgs, node: bool) -> (r: String)
    ensures
        r@ == version_file(*a, node),
{
    path_under(a.repo.as_str(), name_of_file(node))
}

fn path_of_changelog(a: &VersionArgs) -> (r: String)
    ensures
        r@ == changelog_file(*a),
{
    path_under(a.repo.as_str(), "CHANGELOG.md")
}

fn begin_run(a: &VersionArgs) -> (r: Step)
    ensures
        r@ == first_step(*a),
{
    if let Some(o) = version_refusal(a) {
        return stop_with(o.lines, o.code);
    }
    if a.dry_run {
        return look(Stage::PackageLooked, Action::Look { path: path_of_version(a, true) });
    }
    let words = ["git", "rev-parse", "--is-inside-work-tree"];
    let action = run(&words, a.repo.as_str());
    assert(names(words@) =~= ask_inside());
    look(Stage::InsideAsked, action)
}

fn raise_in_file(a: &VersionArgs, p: &Project, node: bool) -> (r: Step)
    ensures
        r@ == raise_file(*a, *p, node),
{
    match plan_from(a, &current_version(p)) {
        Plan::Stop(o) => stop_with(o.lines, o.code),
        Plan::TooLarge => {
            let lines: Vec<String> = Vec::new();
            assert(texts(lines@) =~= seq![]);
            abort_with(lines)
        },
        Plan::Raise { lines, version } => {
            let mut lines = lines;
            match bump_project(p, version.as_str()) {
                Ok(Some(text)) => go_on(
                    lines,
                    Stage::VersionWritten,
                    version.as_str(),
                    node,
                    false,
                    Action::Write { path: path_of_version(a, node), text },
                ),
                Ok(None) => abort_with(lines),
                Err(e) => {
                    say(&mut lines, cat("错误: ", e.as_str()).as_str());
                    stop_with(lines, 1)
                },
            }
        },
    }
}

fn write_changelog(a: &VersionArgs, s: &State, held: &Option<String>, date: &str) -> (r: Step)
    ensures
        r@ == write_log(*a, s@, maybe(*held), date@),
{
    let lines: Vec<String> = Vec::new();
    assert(texts(lines@) =~= seq![]);
    let ver = s.version.as_str();
    go_on(
        lines,
        Stage::ChangelogWritten,
        ver,
        s.node,
        held.is_some(),
        Action::Write {
            path: path_of_changelog(a),
            text: changelog_with(held, ver, a.kind.as_str(), a.desc.as_str(), date),
        },
    )
}

fn end_run(s: &State, reply: &Result<String, String>) -> (r: Step)
    ensures
        r@ == stop(last_lines(s@.version, *reply), 0),
{
    let t = tag_name(s.version.as_str());
    let first = match reply {
        Ok(_) => cat("  ✅ git tag: ", t.as_str()),
        Err(e) => cat("  警告: tag 已存在或失败: ", e.as_str()),
    };
    let mut v = line(first.as_str());
    say(
        &mut v,
        cat("  推送提示: git push origin main && git push origin tag ", t.as_str()).as_str(),
    );
    say(&mut v, "  （若 GitHub 主站 443 被墙，用 REST API 建 ref 兜底）");
    say(&mut v, "═══ 完成 ═══");
    assert(texts(v@) =~= last_lines(s@.version, *reply));
    stop_with(v, 0)
}

/// The state at the beginning of the run.
pub fn begin() -> (r: State)
    ensures
        r@ == (StateView { stage: Stage::Start, version: seq![], node: false, logged: false }),
{
    proof {
        reveal_strlit("");
        assert(""@ =~= seq![]);
    }
    State { stage: Stage::Start, version: "".to_owned(), node: false, logged: false }
}

/// Takes a step of a run that is as far as `s`, where the last action gave `reply`, on a
/// date.
pub fn step(a: &VersionArgs, s: &State, reply: Result<String, String>, date: &str) -> (r: Step)
    ensures
        r@ == next(*a, s@, reply, date@),
{
    let none: Vec<String> = Vec::new();
    assert(texts(none@) =~= seq![]);
    let ver = s.version.as_str();
    let repo = a.repo.as_str();
    match s.stage {
        Stage::Start => begin_run(a),
        Stage::InsideAsked => match reply {
            Ok(_) => look(Stage::PackageLooked, Action::Look { path: path_of_version(a, true) }),
            Err(e) => stop_with(
                line(cat3("错误: ", e.as_str(), "（--repo 需指向 git 仓库）").as_str()),
                1,
            ),
        },
        Stage::PackageLooked => match reply {
            Ok(_) => look(Stage::PackageRead, Action::Read { path: path_of_version(a, true) }),
            Err(_) => look(Stage::CargoLooked, Action::Look { path: path_of_version(a, false) }),
        },
        Stage::PackageRead => raise_in_file(a, &Project::Node(reply), true),
        Stage::CargoLooked => match reply {
            Ok(_) => look(Stage::CargoRead, Action::Read { path: path_of_version(a, false) }),
            Err(_) => raise_in_file(a, &Project::Unknown, false),
        },
        Stage::CargoRead => raise_in_file(a, &Project::Rust(reply), false),
        Stage::VersionWritten => match reply {
            Ok(_) => go_on(
                line(cat4("  ✅ ", name_of_file(s.node), ": version -> ", ver).as_str()),
                Stage::ChangelogLooked,
                ver,
                s.node,
                false,
                Action::Look { path: path_of_changelog(a) },
            ),
            Err(e) => stop_with(
                line(cat4("错误: 写 ", name_of_file(s.node), ": ", e.as_str()).as_str()),
                1,
            ),
        },
        Stage::ChangelogLooked => match reply {
            Ok(_) => go_on(
                none,
                Stage::ChangelogRead,
                ver,
                s.node,
                true,
                Action::Read { path: path_of_changelog(a) },
            ),
            Err(_) => write_changelog(a, s, &None, date),
        },
        Stage::ChangelogRead => match reply {
            Ok(t) => write_changelog(a, s, &Some(t), date),
            Err(e) => stop_with(line(cat("错误: 读 CHANGELOG: ", e.as_str()).as_str()), 1),
        },
        Stage::ChangelogWritten => match reply {
            Ok(_) => {
                let words = ["git", "add", "-A"];
                let action = run(&words, repo);
                assert(names(words@) =~= add_all());
                go_on(
                    line(cat4("  ✅ CHANGELOG.md: 追加 [", ver, "] ", a.desc.as_str()).as_str()),
                    Stage::Added,
                    ver,
                    s.node,
                    s.logged,
                    action,
                )
            },
            Err(e) => {
                let head = if s.logged {
                    "错误: 写 CHANGELOG: "
                } else {
                    "错误: 创建 CHANGELOG: "
                };
                stop_with(line(cat(head, e.as_str()).as_str()), 1)
            },
        },
        Stage::Added => {
            let lines = match reply {
                Ok(_) => none,
                Err(e) => line(
                    cat("警告: git add 失败（可能有大文件被忽略）: ", e.as_str()).as_str(),
                ),
            };
            let m = commit_message(ver, a.desc.as_str());
            let words = ["git", "commit", "-m", m.as_str()];
            let action = run(&words, repo);
            assert(names(words@) =~= commit_version(ver@, a.desc@));
            go_on(lines, Stage::Committed, ver, s.node, s.logged, action)
        },
        Stage::Committed => match reply {
            Ok(_) => {
                let t = tag_name(ver);
                let words = ["git", "tag", t.as_str()];
                let action = run(&words, repo);
                assert(names(words@) =~= tag_version(ver@));
                let m = commit_message(ver, a.desc.as_str());
                go_on(
                    line(cat("  ✅ git commit: ", m.as_str()).as_str()),
                    Stage::Tagged,
                    ver,
                    s.node,
                    s.logged,
                    action,
                )
            },
            Err(e) => stop_with(
                line(cat("警告: git commit 失败（可能无变更或无身份）: ", e.as_str()).as_str()),
                1,
            ),
        },
        Stage::Tagged => end_run(s, &reply),
        Stage::Ended => stop_with(none, 0),
    }
}

// ---------------------------------------------------------------- laws

/// The stages in which nothing but looking and reading has been done.
pub open spec fn only_read(stage: Stage) -> bool {
    stage is Start || stage is PackageLooked || stage is PackageRead || stage is CargoLooked
        || stage is CargoRead
}

/// A dry run runs no command and writes no file: from the start on, each of its steps looks
/// or reads, and stays in the stages of those steps, or is the last one.
pub proof fn dry_run_only_reads(
    a: VersionArgs,
    s: StateView,
    reply: Result<String, String>,
    date: Seq<char>,
)
    requires
        a.dry_run,
        only_read(s.stage),
    ensures
        ({
            let n = next(a, s, reply, date);
            ||| (n.action is Look || n.action is Read) && only_read(n.state.stage)
            ||| n.action is End
            ||| n.action is Abort
        }),
{
}

/// The commands come in order. A run that is not dry begins by asking for a repository, or
/// ends for its arguments. All changes are added once the changelog is written, then they are committed,
/// and only what was committed is tagged. All of them run in the repository, and none in a
/// stage that does not come right before it.
pub proof fn commands_come_in_order(
    a: VersionArgs,
    s: StateView,
    reply: Result<String, String>,
    date: Seq<char>,
)
    ensures
        s.stage is Start && !a.dry_run ==> {
            let n = next(a, s, reply, date).action;
            n is End || n == (ActionView::Run { words: ask_inside(), dir: a.repo@ })
        },
        next(a, s, reply, date).action matches ActionView::Run { words, dir } ==> {
            let to = next(a, s, reply, date).state.stage;
            &&& dir == a.repo@
            &&& {
                ||| s.stage is Start && !a.dry_run && words == ask_inside() && to is InsideAsked
                ||| s.stage is ChangelogWritten && reply is Ok && words == add_all() && to is Added
                ||| s.stage is Added && words == commit_version(s.version, a.desc@)
                    && to is Committed
                ||| s.stage is Committed && reply is Ok && words == tag_version(s.version)
                    && to is Tagged
            }
        },
{
}

/// The files are written in order: first the one with the version, of which the text is
/// the raised one, then the changelog, and nothing else.
pub proof fn files_come_in_order(
    a: VersionArgs,
    s: StateView,
    reply: Result<String, String>,
    date: Seq<char>,
)
    ensures
        next(a, s, reply, date).action matches ActionView::Write { path, text } ==> {
            let to = next(a, s, reply, date).state;
            ||| to.stage is VersionWritten && path == version_file(a, to.node) && (s.stage
                is PackageRead || s.stage is CargoRead)
            ||| to.stage is ChangelogWritten && path == changelog_file(a) && to.version
                == s.version && (s.stage is ChangelogLooked || s.stage is ChangelogRead)
        },
{
}

/// How many stages come before one.
pub open spec fn place(stage: Stage) -> int {
    match stage {
        Stage::Start => 0,
        Stage::InsideAsked => 1,
        Stage::PackageLooked => 2,
        Stage::PackageRead => 3,
        Stage::CargoLooked => 4,
        Stage::CargoRead => 5,
        Stage::VersionWritten => 6,
        Stage::ChangelogLooked => 7,
        Stage::ChangelogRead => 8,
        Stage::ChangelogWritten => 9,
        Stage::Added => 10,
        Stage::Committed => 11,
        Stage::Tagged => 12,
        Stage::Ended => 13,
    }
}

/// Each step leads to a later stage, so that a run ends, whatever the actions give.
pub proof fn runs_end(
    a: VersionArgs,
    s: StateView,
    reply: Result<String, String>,
    date: Seq<char>,
)
    requires
        !(s.stage is Ended),
    ensures
        place(next(a, s, reply, date).state.stage) > place(s.stage),
{
}

// ---------------------------------------------------------------- codes and versions

/// A run without a description, or with a kind of change that there is not, ends at once
/// with the code 2; one outside of a repository with 1; a run that was done to its end with
/// 0.
pub proof fn runs_end_with_their_codes(
    a: VersionArgs,
    s: StateView,
    reply: Result<String, String>,
    date: Seq<char>,
)
    ensures
        s.stage is Start && a.desc@.len() == 0 ==> next(a, s, reply, date).action == (
        ActionView::End { code: 2 }),
        s.stage is Start && a.kind@ != "fix"@ && a.kind@ != "feat"@ && a.kind@ != "breaking"@
            ==> next(a, s, reply, date).action == (ActionView::End { code: 2 }),
        s.stage is InsideAsked && reply is Err ==> next(a, s, reply, date).action == (
        ActionView::End { code: 1 }),
        s.stage is CargoLooked && reply is Err ==> next(a, s, reply, date).action == (
        ActionView::End { code: 1 }),
        s.stage is Committed && reply is Err ==> next(a, s, reply, date).action == (
        ActionView::End { code: 1 }),
        s.stage is Tagged ==> next(a, s, reply, date).action == (ActionView::End { code: 0 }),
{
}

/// Where the file of a project gives three numbers, what is written, committed and tagged
/// is the version with the number of the change raised by one: the third for a fix, the
/// second for a feature with the third set to zero, the first for a breaking change with
/// the others set to zero.
pub proof fn the_raised_version_is_written(
    a: VersionArgs,
    p: Project,
    node: bool,
    x: nat,
    y: nat,
    z: nat,
)
    requires
        x < u64::MAX,
        y < u64::MAX,
        z < u64::MAX,
        project_version(p) == Some(dec(x) + "."@ + dec(y) + "."@ + dec(z)),
    ensures
        raise_file(a, p, node).action is Write && a.kind@ == "fix"@ ==> raise_file(
            a,
            p,
            node,
        ).state.version == dec(x) + "."@ + dec(y) + "."@ + dec(z + 1),
        raise_file(a, p, node).action is Write && a.kind@ == "feat"@ ==> raise_file(
            a,
            p,
            node,
        ).state.version == dec(x) + "."@ + dec(y + 1) + "."@ + dec(0),
        raise_file(a, p, node).action is Write && a.kind@ == "breaking"@ ==> raise_file(
            a,
            p,
            node,
        ).state.version == dec(x + 1) + "."@ + dec(0) + "."@ + dec(0),
        raise_file(a, p, node).action matches ActionView::Write { path, text }
            ==> bumped_project(p, raise_file(a, p, node).state.version) == Ok::<
            Option<Seq<char>>,
            Seq<char>,
        >(Some(text)),
{
    let e = Seq::<char>::empty();
    let t = dec(x) + "."@ + dec(y) + "."@ + dec(z);
    each_kind_raises_its_number(x, y, z, e, e, e);
    assert(e + t + e + e =~= t);
}

/// The version that was written is the one that is committed and tagged.
pub proof fn the_written_version_is_kept(
    a: VersionArgs,
    s: StateView,
    reply: Result<String, String>,
    date: Seq<char>,
)
    requires
        s.stage is VersionWritten || s.stage is ChangelogLooked || s.stage is ChangelogRead
            || s.stage is ChangelogWritten || s.stage is Added || s.stage is Committed,
    ensures
        next(a, s, reply, date).action is End || next(a, s, reply, date).state.version
            == s.version,
        next(a, s, reply, date).state.stage is Tagged ==> next(a, s, reply, date).action == (
        ActionView::Run { words: seq!["git"@, "tag"@, "v"@ + s.version], dir: a.repo@ }),
        next(a, s, reply, date).state.stage is Committed ==> next(a, s, reply, date).action == (
        ActionView::Run {
            words: seq!["git"@, "commit"@, "-m"@, "v"@ + s.version + ": "@ + a.desc@],
            dir: a.repo@,
        }),
{
}

} // verus!
