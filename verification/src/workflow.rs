//! Workflows: steps that wait for each other, each within its budget of tokens.
use vstd::prelude::*;
use crate::json::{json_parsed, parse, read_of_put, views, Json, JsonView};
use crate::num::{dec, decimal};
use crate::order::{flat, positions};
use crate::text::{
    among, cat, cat4, cat7, chars_of, contains, first, first_chars, maybe, texts,
    trim, trimmed,
};

verus! {

// ---------------------------------------------------------------- steps

/// A step of a workflow.
pub struct StepDef {
    pub id: String,
    pub cmd: String,
    pub args: Vec<String>,
    pub depends_on: Vec<String>,
    pub parallel: bool,
    pub token_budget: Option<u64>,
    pub retry: u32,
}

/// What came of a step.
pub struct StepResult {
    pub id: String,
    pub ok: bool,
    pub output: String,
    pub tokens: u64,
    pub duration_ms: u64,
}

/// A step, as plain values.
pub ghost struct StepView {
    pub id: Seq<char>,
    pub cmd: Seq<char>,
    pub args: Seq<Seq<char>>,
    pub depends_on: Seq<Seq<char>>,
    pub parallel: bool,
    pub token_budget: Option<u64>,
    pub retry: u32,
}

impl View for StepDef {
    type V = StepView;

    open spec fn view(&self) -> StepView {
        StepView {
            id: self.id@,
            cmd: self.cmd@,
            args: texts(self.args@),
            depends_on: texts(self.depends_on@),
            parallel: self.parallel,
            token_budget: self.token_budget,
            retry: self.retry,
        }
    }
}

/// What came of a step, as plain values.
pub ghost struct ResultView {
    pub id: Seq<char>,
    pub ok: bool,
    pub output: Seq<char>,
    pub tokens: u64,
    pub duration_ms: u64,
}

impl View for StepResult {
    type V = ResultView;

    open spec fn view(&self) -> ResultView {
        ResultView {
            id: self.id@,
            ok: self.ok,
            output: self.output@,
            tokens: self.tokens,
            duration_ms: self.duration_ms,
        }
    }
}

/// The step that a value describes. The number of retries counts modulo two to the
/// power of 32.
pub open spec fn step_of(v: JsonView) -> StepView {
    StepView {
        id: v.text_or("id"@, seq![]),
        cmd: v.text_or("cmd"@, seq![]),
        args: v.text_items("args"@),
        depends_on: v.text_items("depends_on"@),
        parallel: v.flag("parallel"@),
        token_budget: match v.uint("token_budget"@) {
            Some(n) => Some(n as u64),
            None => None,
        },
        retry: match v.uint("retry"@) {
            Some(n) => (n as u64) as u32,
            None => 0,
        },
    }
}

/// The step that a value describes.
pub fn parse_step(v: &Json) -> (r: StepDef)
    ensures
        r@ == step_of(v@),
{
    proof {
        reveal_strlit("");
        assert(""@ =~= seq![]);
    }
    let retry: u32 = match v.uint_at("retry") {
        Some(n) => n as u32,
        None => 0,
    };
    StepDef {
        id: v.text_or("id", ""),
        cmd: v.text_or("cmd", ""),
        args: v.text_items("args"),
        depends_on: v.text_items("depends_on"),
        parallel: v.flag_at("parallel"),
        token_budget: v.uint_at("token_budget"),
        retry,
    }
}

// ---------------------------------------------------------------- tokens

/// How many characters some texts hold.
pub open spec fn chars_in(s: Seq<Seq<char>>) -> nat
    decreases s.len(),
{
    if s.len() == 0 {
        0
    } else {
        chars_in(s.drop_last()) + s.last().len()
    }
}

/// How many tokens a command takes: a quarter of the characters of the command and its
/// arguments.
pub open spec fn token_count(cmd: Seq<char>, args: Seq<Seq<char>>) -> u64 {
    ((cmd.len() + chars_in(args)) / 4) as u64
}

/// How many tokens a command takes.
pub fn estimate_tokens(cmd: &str, args: &[String]) -> (r: u64)
    ensures
        r == token_count(cmd@, texts(args@)),
{
    let ghost t = texts(args@);
    let first: usize = chars_of(cmd).len();
    let n: usize = args.len();
    let mut total: u128 = first as u128;
    let mut i: usize = 0;
    assert(t.take(0) =~= seq![]);
    while i < n
        invariant
            i <= n == args@.len(),
            t == texts(args@),
            total == cmd@.len() + chars_in(t.take(i as int)),
            total <= (i + 1) * 0xffff_ffff_ffff_ffff,
        decreases n - i,
    {
        proof {
            assert(t.take(i + 1).drop_last() =~= t.take(i as int));
            assert(t.take(i + 1).last() == args@[i as int]@);
        }
        let k: usize = chars_of(args[i].as_str()).len();
        assert((i + 1) * 0xffff_ffff_ffff_ffff + 0xffff_ffff_ffff_ffff <= 0xffff_ffff_ffff_ffff_ffff_ffff_ffff_ffff)
            by (nonlinear_arith)
            requires
                i < 0xffff_ffff_ffff_ffff,
        ;
        assert((i + 1) * 0xffff_ffff_ffff_ffff + 0xffff_ffff_ffff_ffff == (i + 2)
            * 0xffff_ffff_ffff_ffff) by (nonlinear_arith);
        total = total + k as u128;
        i += 1;
    }
    assert(t.take(i as int) =~= t);
    (total / 4) as u64
}

/// A step takes more tokens than its budget allows.
pub open spec fn over_budget(s: StepView) -> bool {
    match s.token_budget {
        Some(b) => token_count(s.cmd, s.args) > b,
        None => false,
    }
}

/// What comes of a step that is over its budget: it is not run.
pub open spec fn refused_step(s: StepView) -> ResultView {
    ResultView {
        id: s.id,
        ok: false,
        output: "token 预算超限: est "@ + dec(token_count(s.cmd, s.args) as nat) + " > budget "@ + dec(
            s.token_budget->0 as nat,
        ),
        tokens: token_count(s.cmd, s.args),
        duration_ms: 0,
    }
}

// ---------------------------------------------------------------- running

/// What a command said, cut at 500 characters: its output, or its errors where there
/// is no output.
pub open spec fn said(stdout: Seq<char>, stderr: Seq<char>) -> Seq<char> {
    first(
        trim(
            if stdout.len() == 0 {
                stderr
            } else {
                stdout
            },
        ),
        500,
    )
}

/// What a command said.
pub fn command_output(stdout: &str, stderr: &str) -> (r: String)
    ensures
        r@ == said(stdout@, stderr@),
{
    let s = if stdout.is_empty() {
        stderr
    } else {
        stdout
    };
    first_chars(trimmed(s).as_str(), 500)
}

/// One run of a command: whether it succeeded, and what it said.
pub struct Run {
    pub ok: bool,
    pub output: String,
}

/// How far a step has come.
pub enum Progress {
    /// It is to be run, once more.
    RunOnce,
    /// It has come to its end.
    Finished(StepResult),
}

/// A step that ran is over: it succeeded, or it has used its retries.
pub open spec fn run_over(s: StepView, runs: Seq<Run>) -> bool {
    runs.len() > 0 && (runs.last().ok || runs.len() > s.retry)
}

/// What comes of a step whose last run ended it.
pub open spec fn ran_step(s: StepView, last: Run, ms: u64) -> ResultView {
    ResultView {
        id: s.id,
        ok: last.ok,
        output: last.output@,
        tokens: token_count(s.cmd, s.args),
        duration_ms: ms,
    }
}

/// Decides what becomes of a step after some runs, which took so many milliseconds:
/// one over its budget is never run, one that fails is run again as often as it may
/// be.
pub fn execute_step(step: &StepDef, runs: &Vec<Run>, ms: u64) -> (r: Progress)
    ensures
        if over_budget(step@) {
            r matches Progress::Finished(x) && x@ == refused_step(step@)
        } else if run_over(step@, runs@) {
            r matches Progress::Finished(x) && x@ == ran_step(step@, runs@.last(), ms)
        } else {
            r is RunOnce
        },
{
    let tokens: u64 = estimate_tokens(step.cmd.as_str(), step.args.as_slice());
    if let Some(budget) = step.token_budget {
        if tokens > budget {
            let output = cat4(
                "token 预算超限: est ",
                decimal(tokens).as_str(),
                " > budget ",
                decimal(budget).as_str(),
            );
            return Progress::Finished(
                StepResult { id: step.id.clone(), ok: false, output, tokens, duration_ms: 0 },
            );
        }
    }
    let n: usize = runs.len();
    if n > 0 && (runs[n - 1].ok || n as u64 > step.retry as u64) {
        let last = &runs[n - 1];
        return Progress::Finished(
            StepResult {
                id: step.id.clone(),
                ok: last.ok,
                output: last.output.clone(),
                tokens,
                duration_ms: ms,
            },
        );
    }
    Progress::RunOnce
}

// ---------------------------------------------------------------- workflows

/// A workflow.
pub struct Workflow {
    pub name: String,
    pub steps: Vec<StepDef>,
}

/// The steps as plain values.
pub open spec fn step_views(v: Seq<StepDef>) -> Seq<StepView> {
    v.map_values(|s: StepDef| s@)
}

/// The steps that a value describes.
pub open spec fn steps_of(v: JsonView) -> Seq<StepView> {
    match v.items("steps"@) {
        Some(a) => a.map_values(|x: JsonView| step_of(x)),
        None => seq![],
    }
}

/// A workflow that did not start, and why.
pub open spec fn no_workflow(m: Seq<char>) -> JsonView {
    JsonView::object().put("error"@, JsonView::Str(m))
}

/// The workflow that a value describes.
pub fn workflow_of(v: &Json) -> (r: Workflow)
    ensures
        r.name@ == v@.text_or("name"@, "workflow"@),
        step_views(r.steps@) == steps_of(v@),
{
    let mut steps: Vec<StepDef> = Vec::new();
    assert(step_views(steps@) =~= seq![]);
    if let Some(a) = v.items("steps") {
        let ghost w = views(a@).map_values(|x: JsonView| step_of(x));
        let mut i: usize = 0;
        while i < a.len()
            invariant
                i <= a@.len() == w.len(),
                w == views(a@).map_values(|x: JsonView| step_of(x)),
                steps@.len() == i,
                forall|j: int| 0 <= j < i ==> (#[trigger] steps@[j])@ == w[j],
            decreases a@.len() - i,
        {
            steps.push(parse_step(&a[i]));
            i += 1;
        }
        assert(step_views(steps@) =~= w);
    }
    Workflow { name: v.text_or("name", "workflow"), steps }
}

/// Reads a workflow from the text of a file, or says why there is none.
pub fn read_workflow(content: &Result<String, String>) -> (r: Result<Workflow, Json>)
    ensures
        match content {
            Err(e) => r matches Err(j) && j@ == no_workflow("读文件失败: "@ + e@),
            Ok(t) => match json_parsed(t@) {
                Err(e) => r matches Err(j) && j@ == no_workflow("JSON 解析失败: "@ + e),
                Ok(v) => r matches Ok(w) && w.name@ == v.text_or("name"@, "workflow"@)
                    && step_views(w.steps@) == steps_of(v),
            },
        },
{
    match content {
        Err(e) => Err(
            Json::object().with("error", Json::text(cat("读文件失败: ", e.as_str()).as_str())),
        ),
        Ok(t) => match parse(t.as_str()) {
            Err(e) => Err(
                Json::object().with("error", Json::text(cat("JSON 解析失败: ", e.as_str()).as_str())),
            ),
            Ok(v) => Ok(workflow_of(&v)),
        },
    }
}

// ---------------------------------------------------------------- rounds

/// A step can be run: all that it depends on has a result.
pub open spec fn can_run(s: StepView, done: Seq<Seq<char>>) -> bool {
    forall|i: int| 0 <= i < s.depends_on.len() ==> done.contains(#[trigger] s.depends_on[i])
}

/// Those of the pending steps that can be run, or those that cannot.
pub open spec fn chosen(
    steps: Seq<StepView>,
    pending: Seq<int>,
    done: Seq<Seq<char>>,
    runnable: bool,
) -> Seq<int>
    decreases pending.len(),
{
    if pending.len() == 0 {
        seq![]
    } else if can_run(steps[pending.last()], done) == runnable {
        chosen(steps, pending.drop_last(), done, runnable).push(pending.last())
    } else {
        chosen(steps, pending.drop_last(), done, runnable)
    }
}

/// The next round of a workflow.
pub enum Round {
    /// Nothing is pending.
    Complete,
    /// None of the pending steps can be run.
    Deadlock,
    /// The steps of `ready` are run, all at once; the others wait.
    Start { ready: Vec<usize>, still: Vec<usize> },
}

fn is_runnable(s: &StepDef, done: &Vec<String>) -> (r: bool)
    ensures
        r == can_run(s@, texts(done@)),
{
    let ghost d = s@.depends_on;
    let mut i: usize = 0;
    while i < s.depends_on.len()
        invariant
            i <= s.depends_on@.len(),
            d == s@.depends_on,
            forall|j: int| 0 <= j < i ==> texts(done@).contains(#[trigger] d[j]),
        decreases s.depends_on@.len() - i,
    {
        assert(d[i as int] == s.depends_on@[i as int]@);
        if !among(s.depends_on[i].as_str(), done) {
            return false;
        }
        i += 1;
    }
    true
}

/// Decides the next round, given the pending steps and the steps that have a result.
pub fn next_round(steps: &Vec<StepDef>, pending: &Vec<usize>, done: &Vec<String>) -> (r: Round)
    requires
        forall|i: int| 0 <= i < pending@.len() ==> (#[trigger] pending@[i]) < steps@.len(),
    ensures
        ({
            let w = step_views(steps@);
            let p = positions(pending@);
            let d = texts(done@);
            if p.len() == 0 {
                r is Complete
            } else if chosen(w, p, d, true).len() == 0 {
                r is Deadlock
            } else {
                r matches Round::Start { ready, still } && positions(ready@) == chosen(w, p, d, true)
                    && positions(still@) == chosen(w, p, d, false) && (forall|i: int|
                    0 <= i < still@.len() ==> (#[trigger] still@[i]) < steps@.len()) && (forall|
                    i: int,
                |
                    0 <= i < ready@.len() ==> (#[trigger] ready@[i]) < steps@.len())
            }
        }),
{
    if pending.len() == 0 {
        return Round::Complete;
    }
    let ghost w = step_views(steps@);
    let ghost p = positions(pending@);
    let ghost d = texts(done@);
    let mut ready: Vec<usize> = Vec::new();
    let mut still: Vec<usize> = Vec::new();
    let mut i: usize = 0;
    assert(p.take(0) =~= seq![]);
    assert(positions(ready@) =~= seq![]);
    assert(positions(still@) =~= seq![]);
    while i < pending.len()
        invariant
            i <= pending@.len(),
            w == step_views(steps@),
            p == positions(pending@),
            d == texts(done@),
            forall|i: int| 0 <= i < pending@.len() ==> (#[trigger] pending@[i]) < steps@.len(),
            forall|i: int| 0 <= i < ready@.len() ==> (#[trigger] ready@[i]) < steps@.len(),
            forall|i: int| 0 <= i < still@.len() ==> (#[trigger] still@[i]) < steps@.len(),
            positions(ready@) == chosen(w, p.take(i as int), d, true),
            positions(still@) == chosen(w, p.take(i as int), d, false),
        decreases pending@.len() - i,
    {
        proof {
            assert(p.take(i + 1).drop_last() =~= p.take(i as int));
            assert(p.take(i + 1).last() == pending@[i as int]);
        }
        let k: usize = pending[i];
        assert(w[k as int] == steps@[k as int]@);
        if is_runnable(&steps[k], done) {
            let ghost prev = positions(ready@);
            ready.push(k);
            assert(positions(ready@) =~= prev.push(k as int));
        } else {
            let ghost prev = positions(still@);
            still.push(k);
            assert(positions(still@) =~= prev.push(k as int));
        }
        i += 1;
    }
    assert(p.take(i as int) =~= p);
    assert(positions(ready@).len() == ready@.len());
    if ready.len() == 0 {
        return Round::Deadlock;
    }
    Round::Start { ready, still }
}

/// The rounds of a workflow, and the steps that are left in a deadlock.
pub struct Schedule {
    pub rounds: Vec<Vec<usize>>,
    pub stuck: Vec<usize>,
}

/// The rounds as integers.
pub open spec fn round_views(v: Seq<Vec<usize>>) -> Seq<Seq<int>> {
    v.map_values(|r: Vec<usize>| positions(r@))
}

/// The rounds from a state on, in which some steps are pending and some have a
/// result, and the steps that are left in a deadlock. A round gives each of its
/// steps a result.
pub open spec fn schedule_from(
    steps: Seq<StepView>,
    pending: Seq<int>,
    done: Seq<Seq<char>>,
) -> (Seq<Seq<int>>, Seq<int>)
    decreases pending.len(),
{
    let ready = chosen(steps, pending, done, true);
    let still = chosen(steps, pending, done, false);
    if ready.len() == 0 || still.len() >= pending.len() {
        (seq![], pending)
    } else {
        let (rounds, stuck) = schedule_from(steps, still, done + ids_at(steps, ready));
        (seq![ready] + rounds, stuck)
    }
}

/// All positions below `n`.
pub open spec fn all_places(n: nat) -> Seq<int> {
    Seq::new(n, |i: int| i)
}

/// The names of some of the steps.
pub open spec fn ids_at(steps: Seq<StepView>, p: Seq<int>) -> Seq<Seq<char>> {
    p.map_values(|i: int| steps[i].id)
}

fn push_ids(steps: &Vec<StepDef>, ready: &Vec<usize>, done: &mut Vec<String>)
    requires
        forall|i: int| 0 <= i < ready@.len() ==> (#[trigger] ready@[i]) < steps@.len(),
    ensures
        texts(final(done)@) == texts(old(done)@) + ids_at(step_views(steps@), positions(ready@)),
{
    let ghost base = texts(done@);
    let ghost w = ids_at(step_views(steps@), positions(ready@));
    let mut i: usize = 0;
    assert(base + w.take(0) =~= base);
    while i < ready.len()
        invariant
            i <= ready@.len() == w.len(),
            w == ids_at(step_views(steps@), positions(ready@)),
            forall|i: int| 0 <= i < ready@.len() ==> (#[trigger] ready@[i]) < steps@.len(),
            texts(done@) == base + w.take(i as int),
        decreases ready@.len() - i,
    {
        let k: usize = ready[i];
        assert(w[i as int] == steps@[k as int].id@);
        let ghost prev = texts(done@);
        done.push(steps[k].id.clone());
        assert(texts(done@) =~= prev.push(w[i as int]));
        assert(texts(done@) =~= base + w.take(i + 1));
        i += 1;
    }
    assert(w.take(i as int) =~= w);
}

/// Lays out the rounds of a workflow: in each of them all steps are run whose
/// dependencies have a result by then. Steps that wait for each other, or for a step
/// there is not, are left over.
pub fn run_workflow(steps: &Vec<StepDef>) -> (r: Schedule)
    ensures
        (round_views(r.rounds@), positions(r.stuck@)) == schedule_from(
            step_views(steps@),
            all_places(steps@.len()),
            seq![],
        ),
        forall|i: int| 0 <= i < r.stuck@.len() ==> (#[trigger] r.stuck@[i]) < steps@.len(),
        forall|i: int, j: int|
            0 <= i < r.rounds@.len() && 0 <= j < r.rounds@[i]@.len() ==> (
            #[trigger] r.rounds@[i]@[j]) < steps@.len(),
{
    let ghost w = step_views(steps@);
    let mut pending: Vec<usize> = Vec::new();
    let mut k: usize = 0;
    while k < steps.len()
        invariant
            k <= steps@.len(),
            pending@.len() == k,
            forall|i: int| 0 <= i < k ==> #[trigger] pending@[i] == i,
        decreases steps@.len() - k,
    {
        pending.push(k);
        k += 1;
    }
    let ghost start = all_places(steps@.len());
    assert(positions(pending@) =~= start);
    let mut done: Vec<String> = Vec::new();
    let mut rounds: Vec<Vec<usize>> = Vec::new();
    assert(texts(done@) =~= seq![]);
    proof {
        let f = schedule_from(w, start, seq![]);
        assert(round_views(rounds@) + f.0 =~= f.0);
    }
    loop
        invariant
            w == step_views(steps@),
            start == all_places(steps@.len()),
            forall|i: int| 0 <= i < pending@.len() ==> (#[trigger] pending@[i]) < steps@.len(),
            forall|i: int, j: int|
                0 <= i < rounds@.len() && 0 <= j < rounds@[i]@.len() ==> (
                #[trigger] rounds@[i]@[j]) < steps@.len(),
            ({
                let f = schedule_from(w, positions(pending@), texts(done@));
                schedule_from(w, start, seq![]) == (round_views(rounds@) + f.0, f.1)
            }),
        decreases pending@.len(),
    {
        let ghost p = positions(pending@);
        let ghost d = texts(done@);
        proof {
            rounds_end(w, p, d);
        }
        match next_round(steps, &pending, &done) {
            Round::Start { ready, still } => {
                let ghost f = schedule_from(w, p, d);
                let ghost g = schedule_from(w, positions(still@), d + ids_at(w, positions(ready@)));
                let ghost before = round_views(rounds@);
                assert(positions(still@).len() == still@.len());
                assert(p.len() == pending@.len());
                push_ids(steps, &ready, &mut done);
                let ghost rv = positions(ready@);
                let ghost rounds0 = rounds@;
                rounds.push(ready);
                pending = still;
                proof {
                    assert(round_views(rounds@) =~= before.push(rv));
                    assert(before + (seq![rv] + g.0) =~= before.push(rv) + g.0);
                    assert forall|i: int, j: int|
                        0 <= i < rounds@.len() && 0 <= j < rounds@[i]@.len() implies (
                    #[trigger] rounds@[i]@[j]) < steps@.len() by {
                        if i < rounds0.len() {
                            assert(rounds@[i] == rounds0[i]);
                        }
                    }
                }
            },
            _ => {
                proof {
                    let f = schedule_from(w, p, d);
                    assert(round_views(rounds@) + f.0 =~= round_views(rounds@));
                }
                return Schedule { rounds, stuck: pending };
            },
        }
    }
}

// ---------------------------------------------------------------- results

/// What is said of a workflow whose pending steps wait for each other.
pub open spec fn deadlock_value(name: Seq<char>, ids: Seq<Seq<char>>) -> JsonView {
    JsonView::object().put("workflow"@, JsonView::Str(name)).put(
        "ok"@,
        JsonView::Bool(false),
    ).put("error"@, JsonView::Str("依赖死锁"@)).put(
        "pending"@,
        JsonView::Arr(ids.map_values(|s: Seq<char>| JsonView::Str(s))),
    )
}

/// What is said of a workflow whose pending steps wait for each other.
pub fn deadlock_report(w: &Workflow, pending: &Vec<usize>) -> (r: Json)
    requires
        forall|i: int| 0 <= i < pending@.len() ==> (#[trigger] pending@[i]) < w.steps@.len(),
    ensures
        r@ == deadlock_value(w.name@, ids_at(step_views(w.steps@), positions(pending@))),
{
    let ghost ids = ids_at(step_views(w.steps@), positions(pending@));
    let mut v: Vec<String> = Vec::new();
    let mut i: usize = 0;
    while i < pending.len()
        invariant
            i <= pending@.len() == ids.len(),
            ids == ids_at(step_views(w.steps@), positions(pending@)),
            forall|i: int| 0 <= i < pending@.len() ==> (#[trigger] pending@[i]) < w.steps@.len(),
            v@.len() == i,
            forall|j: int| 0 <= j < i ==> (#[trigger] v@[j])@ == ids[j],
        decreases pending@.len() - i,
    {
        let k: usize = pending[i];
        assert(ids[i as int] == w.steps@[k as int].id@);
        v.push(w.steps[k].id.clone());
        i += 1;
    }
    assert(v@.map_values(|s: String| JsonView::Str(s@)) =~= ids.map_values(
        |s: Seq<char>| JsonView::Str(s),
    ));
    Json::object().with("workflow", Json::text(w.name.as_str())).with(
        "ok",
        Json::Bool(false),
    ).with("error", Json::text("依赖死锁")).with("pending", Json::text_array(&v))
}

/// The results as plain values.
pub open spec fn result_views(v: Seq<StepResult>) -> Seq<ResultView> {
    v.map_values(|x: StepResult| x@)
}

/// The results with one more: in place of the one of the same step, else at the end.
pub open spec fn with_result(v: Seq<ResultView>, x: ResultView) -> Seq<ResultView>
    decreases v.len(),
{
    if v.len() == 0 {
        seq![x]
    } else if v[0].id == x.id {
        seq![x] + v.skip(1)
    } else {
        seq![v[0]] + with_result(v.skip(1), x)
    }
}

/// Adds a result.
pub fn insert_result(v: &mut Vec<StepResult>, x: StepResult)
    ensures
        result_views(final(v)@) == with_result(result_views(old(v)@), x@),
{
    let ghost w = result_views(v@);
    let ghost xv = x@;
    let mut i: usize = 0;
    assert(w.skip(0) =~= w);
    assert(w.take(0) + with_result(w, xv) =~= with_result(w, xv));
    while i < v.len()
        invariant
            i <= v@.len(),
            v@ == old(v)@,
            w == result_views(v@),
            xv == x@,
            with_result(w, xv) == w.take(i as int) + with_result(w.skip(i as int), xv),
        decreases v@.len() - i,
    {
        let ghost rest = w.skip(i as int);
        assert(rest[0] == w[i as int]);
        assert(rest.skip(1) =~= w.skip(i + 1));
        if crate::text::same(v[i].id.as_str(), x.id.as_str()) {
            v.remove(i);
            v.insert(i, x);
            assert(result_views(v@) =~= w.take(i as int) + (seq![xv] + rest.skip(1)));
            return;
        }
        assert(w.take(i as int) + (seq![rest[0]] + with_result(rest.skip(1), xv)) =~= w.take(i + 1)
            + with_result(w.skip(i + 1), xv));
        i += 1;
    }
    v.push(x);
    proof {
        assert(w.take(i as int) =~= w);
        assert(w.skip(i as int) =~= seq![]);
        assert(result_views(v@) =~= w + seq![xv]);
    }
}

/// The table of some results: each step has the last of its results.
pub open spec fn table_of(v: Seq<ResultView>) -> Seq<ResultView>
    decreases v.len(),
{
    if v.len() == 0 {
        seq![]
    } else {
        with_result(table_of(v.drop_last()), v.last())
    }
}

/// All results are successes.
pub open spec fn all_good(v: Seq<ResultView>) -> bool {
    forall|i: int| 0 <= i < v.len() ==> (#[trigger] v[i]).ok
}

fn copy_result(x: &StepResult) -> (r: StepResult)
    ensures
        r@ == x@,
{
    StepResult {
        id: x.id.clone(),
        ok: x.ok,
        output: x.output.clone(),
        tokens: x.tokens,
        duration_ms: x.duration_ms,
    }
}

/// The tokens that all steps took.
pub open spec fn tokens_of(v: Seq<ResultView>) -> nat
    decreases v.len(),
{
    if v.len() == 0 {
        0
    } else {
        tokens_of(v.drop_last()) + v.last().tokens as nat
    }
}

/// The tokens that all steps took, where 64 bits hold the sum.
pub fn total_tokens(v: &Vec<StepResult>) -> (r: Option<u64>)
    ensures
        match r {
            Some(n) => n == tokens_of(result_views(v@)),
            None => tokens_of(result_views(v@)) > u64::MAX,
        },
{
    let ghost w = result_views(v@);
    let mut sum: u64 = 0;
    let mut i: usize = 0;
    assert(w.take(0) =~= seq![]);
    while i < v.len()
        invariant
            i <= v@.len(),
            w == result_views(v@),
            sum == tokens_of(w.take(i as int)),
        decreases v@.len() - i,
    {
        proof {
            assert(w.take(i + 1).drop_last() =~= w.take(i as int));
            assert(w.take(i + 1).last() == v@[i as int]@);
            tokens_grow(w, i + 1);
        }
        match sum.checked_add(v[i].tokens) {
            Some(s) => {
                sum = s;
            },
            None => {
                return None;
            },
        }
        i += 1;
    }
    assert(w.take(i as int) =~= w);
    Some(sum)
}

proof fn tokens_grow(v: Seq<ResultView>, k: int)
    requires
        0 <= k <= v.len(),
    ensures
        tokens_of(v.take(k)) <= tokens_of(v),
    decreases v.len(),
{
    if k == v.len() {
        assert(v.take(k) =~= v);
    } else {
        tokens_grow(v.drop_last(), k);
        assert(v.drop_last().take(k) =~= v.take(k));
    }
}

/// A result as a value.
pub open spec fn result_value(x: ResultView) -> JsonView {
    JsonView::object().put("id"@, JsonView::Str(x.id)).put("ok"@, JsonView::Bool(x.ok)).put(
        "tokens"@,
        JsonView::Int(x.tokens as int),
    ).put("duration_ms"@, JsonView::Int(x.duration_ms as int)).put(
        "output"@,
        JsonView::Str(first(x.output, 200)),
    )
}

/// What is said of a workflow that came to its end.
pub open spec fn summary_value(
    name: Seq<char>,
    ok: bool,
    steps: nat,
    tokens: u64,
    ms: u64,
    v: Seq<ResultView>,
    now: Seq<char>,
) -> JsonView {
    JsonView::object().put("workflow"@, JsonView::Str(name)).put("ok"@, JsonView::Bool(ok)).put(
        "total_steps"@,
        JsonView::Int(steps as int),
    ).put("total_tokens"@, JsonView::Int(tokens as int)).put(
        "duration_ms"@,
        JsonView::Int(ms as int),
    ).put(
        "results"@,
        JsonView::Arr(v.map_values(|x: ResultView| result_value(x))),
    ).put("ts"@, JsonView::Str(now))
}

/// What is said of a workflow that came to its end.
pub fn summary(
    w: &Workflow,
    ok: bool,
    tokens: u64,
    ms: u64,
    v: &Vec<StepResult>,
    now: &str,
) -> (r: Json)
    ensures
        r@ == summary_value(
            w.name@,
            ok,
            w.steps@.len(),
            tokens,
            ms,
            result_views(v@),
            now@,
        ),
{
    let ghost t = result_views(v@);
    let mut a: Vec<Json> = Vec::new();
    let mut i: usize = 0;
    while i < v.len()
        invariant
            i <= v@.len(),
            t == result_views(v@),
            a@.len() == i,
            forall|j: int| 0 <= j < i ==> (#[trigger] a@[j])@ == result_value(t[j]),
        decreases v@.len() - i,
    {
        let x = &v[i];
        let j = Json::object().with("id", Json::text(x.id.as_str())).with(
            "ok",
            Json::Bool(x.ok),
        ).with("tokens", Json::Uint(x.tokens)).with(
            "duration_ms",
            Json::Uint(x.duration_ms),
        ).with("output", Json::text(first_chars(x.output.as_str(), 200).as_str()));
        a.push(j);
        i += 1;
    }
    assert(views(a@) =~= t.map_values(|x: ResultView| result_value(x)));
    Json::object().with("workflow", Json::text(w.name.as_str())).with("ok", Json::Bool(ok)).with(
        "total_steps",
        Json::Uint(w.steps.len() as u64),
    ).with("total_tokens", Json::Uint(tokens)).with("duration_ms", Json::Uint(ms)).with(
        "results",
        Json::array(a),
    ).with("ts", Json::text(now))
}

/// The mark of a success or a failure.
pub open spec fn tick(ok: bool) -> Seq<char> {
    if ok {
        "✅"@
    } else {
        "❌"@
    }
}

/// The line that is printed of a result.
pub fn result_line(x: &StepResult) -> (r: String)
    ensures
        r@ == "[workflow] "@ + tick(x.ok) + " step "@ + x.id@ + ": "@ + first(x.output@, 60) + " ("@
            + dec(x.tokens as nat) + " tokens, "@ + dec(x.duration_ms as nat) + "ms)"@,
{
    let mark = if x.ok {
        "✅"
    } else {
        "❌"
    };
    let mut s = cat7(
        "[workflow] ",
        mark,
        " step ",
        x.id.as_str(),
        ": ",
        first_chars(x.output.as_str(), 60).as_str(),
        " (",
    );
    s.append(decimal(x.tokens).as_str());
    s.append(" tokens, ");
    s.append(decimal(x.duration_ms).as_str());
    s.append("ms)");
    s
}

/// The line that is printed at the start.
pub fn start_line(w: &Workflow, now: &str) -> (r: String)
    ensures
        r@ == "[workflow] "@ + now@ + " 开始: "@ + w.name@ + " ("@ + dec(w.steps@.len()) + " steps)"@,
{
    cat7(
        "[workflow] ",
        now,
        " 开始: ",
        w.name.as_str(),
        " (",
        decimal(w.steps.len() as u64).as_str(),
        " steps)",
    )
}

/// The line that is printed at the end.
pub open spec fn closing(name: Seq<char>, ok: bool, steps: nat, tokens: nat, ms: nat) -> Seq<char> {
    "[workflow] "@ + tick(ok) + " 完成: "@ + name + " ("@ + dec(steps) + " steps, "@ + dec(tokens)
        + " tokens, "@ + dec(ms) + "ms)"@
}

/// The line that is printed at the end.
pub fn end_line(w: &Workflow, ok: bool, tokens: u64, ms: u64) -> (r: String)
    ensures
        r@ == closing(w.name@, ok, w.steps@.len(), tokens as nat, ms as nat),
{
    let mark = if ok {
        "✅"
    } else {
        "❌"
    };
    let mut s = cat7(
        "[workflow] ",
        mark,
        " 完成: ",
        w.name.as_str(),
        " (",
        decimal(w.steps.len() as u64).as_str(),
        " steps, ",
    );
    s.append(decimal(tokens).as_str());
    s.append(" tokens, ");
    s.append(decimal(ms).as_str());
    s.append("ms)");
    s
}

/// How a workflow ended: whether all went well, what is said of it, and the line that
/// is printed, if any.
pub struct End {
    pub ok: bool,
    pub value: Json,
    pub line: Option<String>,
}

/// Ends a workflow with the results that its rounds gave, in their order: one with steps
/// left over failed, and so did one with a step that failed. There is no end where 64
/// bits do not hold the tokens.
pub fn end_workflow(
    w: &Workflow,
    stuck: &Vec<usize>,
    got: &Vec<StepResult>,
    ms: u64,
    now: &str,
) -> (r: Option<End>)
    requires
        forall|i: int| 0 <= i < stuck@.len() ==> (#[trigger] stuck@[i]) < w.steps@.len(),
    ensures
        ({
            let g = result_views(got@);
            let t = table_of(g);
            if stuck@.len() > 0 {
                r matches Some(e) && !e.ok && e.line is None && e.value@ == deadlock_value(
                    w.name@,
                    ids_at(step_views(w.steps@), positions(stuck@)),
                )
            } else if tokens_of(t) > u64::MAX {
                r is None
            } else {
                r matches Some(e) && e.ok == all_good(g) && e.value@ == summary_value(
                    w.name@,
                    e.ok,
                    w.steps@.len(),
                    tokens_of(t) as u64,
                    ms,
                    t,
                    now@,
                ) && maybe(e.line) == Some(
                    closing(w.name@, e.ok, w.steps@.len(), tokens_of(t), ms as nat),
                )
            }
        }),
{
    if stuck.len() > 0 {
        return Some(End { ok: false, value: deadlock_report(w, stuck), line: None });
    }
    let ghost g = result_views(got@);
    let mut table: Vec<StepResult> = Vec::new();
    let mut ok = true;
    let mut i: usize = 0;
    assert(g.take(0) =~= seq![]);
    assert(result_views(table@) =~= seq![]);
    while i < got.len()
        invariant
            i <= got@.len(),
            g == result_views(got@),
            result_views(table@) == table_of(g.take(i as int)),
            ok == all_good(g.take(i as int)),
        decreases got@.len() - i,
    {
        proof {
            assert(g.take(i + 1).drop_last() =~= g.take(i as int));
            assert(g.take(i + 1).last() == got@[i as int]@);
            assert(all_good(g.take(i + 1)) == (all_good(g.take(i as int)) && got@[i as int].ok)) by {
                let a = g.take(i as int);
                let b = g.take(i + 1);
                assert(forall|j: int| 0 <= j < a.len() ==> a[j] == b[j]);
                assert(b[i as int].ok == got@[i as int].ok);
                if all_good(a) && got@[i as int].ok {
                    assert forall|j: int| 0 <= j < b.len() implies (#[trigger] b[j]).ok by {
                        if j < i {
                            assert(a[j].ok);
                        }
                    }
                }
                if all_good(b) {
                    assert forall|j: int| 0 <= j < a.len() implies (#[trigger] a[j]).ok by {
                        assert(b[j].ok);
                    }
                }
            }
        }
        insert_result(&mut table, copy_result(&got[i]));
        ok = ok && got[i].ok;
        i += 1;
    }
    assert(g.take(i as int) =~= g);
    match total_tokens(&table) {
        Some(n) => Some(
            End {
                ok,
                value: summary(w, ok, n, ms, &table, now),
                line: Some(end_line(w, ok, n, ms)),
            },
        ),
        None => None,
    }
}

// ---------------------------------------------------------------- laws

/// A step that is run has a result for all that it depends on, and one that waits
/// lacks one.
pub proof fn runs_after_dependencies(
    steps: Seq<StepView>,
    pending: Seq<int>,
    done: Seq<Seq<char>>,
    i: int,
)
    ensures
        0 <= i < chosen(steps, pending, done, true).len() ==> can_run(
            steps[chosen(steps, pending, done, true)[i]],
            done,
        ),
        0 <= i < chosen(steps, pending, done, false).len() ==> !can_run(
            steps[chosen(steps, pending, done, false)[i]],
            done,
        ),
    decreases pending.len(),
{
    if pending.len() > 0 {
        runs_after_dependencies(steps, pending.drop_last(), done, i);
    }
}

/// A round neither loses a step nor makes one up.
pub proof fn rounds_keep_steps(steps: Seq<StepView>, pending: Seq<int>, done: Seq<Seq<char>>)
    ensures
        chosen(steps, pending, done, true).to_multiset().add(
            chosen(steps, pending, done, false).to_multiset(),
        ) == pending.to_multiset(),
    decreases pending.len(),
{
    broadcast use vstd::seq_lib::group_to_multiset_ensures;

    let a = chosen(steps, pending, done, true);
    let b = chosen(steps, pending, done, false);
    if pending.len() == 0 {
        assert(a.to_multiset().add(b.to_multiset()) =~= pending.to_multiset());
    } else {
        let d = pending.drop_last();
        rounds_keep_steps(steps, d, done);
        assert(d.push(pending.last()) =~= pending);
        assert(a.to_multiset().add(b.to_multiset()) =~= pending.to_multiset());
    }
}

/// A workflow comes to its end: a round that starts leaves fewer steps pending.
pub proof fn rounds_end(steps: Seq<StepView>, pending: Seq<int>, done: Seq<Seq<char>>)
    ensures
        chosen(steps, pending, done, true).len() + chosen(steps, pending, done, false).len()
            == pending.len(),
        chosen(steps, pending, done, true).len() > 0 ==> chosen(
            steps,
            pending,
            done,
            false,
        ).len() < pending.len(),
    decreases pending.len(),
{
    if pending.len() > 0 {
        rounds_end(steps, pending.drop_last(), done);
    }
}

/// A step that depends on nothing is in the first round, so that a workflow with such
/// a step pending is in no deadlock.
pub proof fn free_steps_start(
    steps: Seq<StepView>,
    pending: Seq<int>,
    done: Seq<Seq<char>>,
    i: int,
)
    requires
        0 <= i < pending.len(),
        steps[pending[i]].depends_on.len() == 0,
    ensures
        chosen(steps, pending, done, true).contains(pending[i]),
    decreases pending.len(),
{
    let c = chosen(steps, pending, done, true);
    let d = chosen(steps, pending.drop_last(), done, true);
    if i == pending.len() - 1 {
        assert(c[c.len() - 1] == pending[i]);
    } else {
        free_steps_start(steps, pending.drop_last(), done, i);
        let k = choose|k: int| 0 <= k < d.len() && d[k] == pending.drop_last()[i];
        assert(c[k] == d[k]);
    }
}

/// Every step is in one round, or left over, and in one of these only.
pub proof fn every_step_is_placed(steps: Seq<StepView>, pending: Seq<int>, done: Seq<Seq<char>>)
    ensures
        ({
            let (rounds, stuck) = schedule_from(steps, pending, done);
            flat(rounds).to_multiset().add(stuck.to_multiset()) == pending.to_multiset()
        }),
    decreases pending.len(),
{
    broadcast use vstd::seq_lib::group_to_multiset_ensures;

    let ready = chosen(steps, pending, done, true);
    let still = chosen(steps, pending, done, false);
    let (rounds, stuck) = schedule_from(steps, pending, done);
    if ready.len() == 0 || still.len() >= pending.len() {
        assert(flat(rounds).to_multiset().add(stuck.to_multiset()) =~= pending.to_multiset());
    } else {
        let d2 = done + ids_at(steps, ready);
        let (r2, s2) = schedule_from(steps, still, d2);
        every_step_is_placed(steps, still, d2);
        rounds_keep_steps(steps, pending, done);
        assert(rounds.skip(1) =~= r2);
        vstd::seq_lib::lemma_multiset_commutative(ready, flat(r2));
        assert(flat(rounds).to_multiset() =~= ready.to_multiset().add(flat(r2).to_multiset()));
        assert(flat(rounds).to_multiset().add(stuck.to_multiset()) =~= pending.to_multiset());
    }
}

/// A step of a round finds a result for each step that it depends on: it came before,
/// or in an earlier round. What is left over waits for a step without a result.
pub proof fn rounds_respect_dependencies(
    steps: Seq<StepView>,
    pending: Seq<int>,
    done: Seq<Seq<char>>,
    k: int,
    i: int,
)
    ensures
        ({
            let (rounds, stuck) = schedule_from(steps, pending, done);
            &&& 0 <= k < rounds.len() && 0 <= i < rounds[k].len() ==> can_run(
                steps[rounds[k][i]],
                done + ids_at(steps, flat(rounds.take(k))),
            )
            &&& 0 <= i < stuck.len() ==> !can_run(
                steps[stuck[i]],
                done + ids_at(steps, flat(rounds)),
            )
        }),
    decreases pending.len(),
{
    let ready = chosen(steps, pending, done, true);
    let still = chosen(steps, pending, done, false);
    let (rounds, stuck) = schedule_from(steps, pending, done);
    rounds_end(steps, pending, done);
    if ready.len() == 0 || still.len() >= pending.len() {
        assert(done + ids_at(steps, flat(rounds)) =~= done);
        if 0 <= i < stuck.len() {
            all_are_waiting(steps, pending, done);
            runs_after_dependencies(steps, pending, done, i);
        }
    } else {
        let d2 = done + ids_at(steps, ready);
        let (r2, s2) = schedule_from(steps, still, d2);
        assert(rounds.skip(1) =~= r2);
        rounds_respect_dependencies(steps, still, d2, k - 1, i);
        assert(d2 + ids_at(steps, flat(r2)) =~= done + ids_at(steps, flat(rounds)));
        if k == 0 {
            assert(rounds.take(0) =~= seq![]);
            assert(done + ids_at(steps, flat(rounds.take(0))) =~= done);
            runs_after_dependencies(steps, pending, done, i);
        } else if 0 < k < rounds.len() {
            assert(rounds.take(k).skip(1) =~= r2.take(k - 1));
            assert(rounds.take(k)[0] == ready);
            assert(d2 + ids_at(steps, flat(r2.take(k - 1))) =~= done + ids_at(
                steps,
                flat(rounds.take(k)),
            ));
        }
    }
}

proof fn all_are_waiting(steps: Seq<StepView>, pending: Seq<int>, done: Seq<Seq<char>>)
    requires
        chosen(steps, pending, done, true).len() == 0,
    ensures
        chosen(steps, pending, done, false) == pending,
    decreases pending.len(),
{
    if pending.len() > 0 {
        all_are_waiting(steps, pending.drop_last(), done);
        assert(pending.drop_last().push(pending.last()) =~= pending);
    } else {
        assert(chosen(steps, pending, done, false) =~= pending);
    }
}

proof fn place_in_flat(rounds: Seq<Seq<int>>, x: int)
    ensures
        flat(rounds).contains(x) <==> exists|a: int, b: int|
            0 <= a < rounds.len() && 0 <= b < rounds[a].len() && #[trigger] rounds[a][b] == x,
    decreases rounds.len(),
{
    let f = flat(rounds);
    if rounds.len() > 0 {
        let r = rounds.skip(1);
        place_in_flat(r, x);
        let n = rounds[0].len();
        if f.contains(x) {
            let k = choose|k: int| 0 <= k < f.len() && f[k] == x;
            if k < n {
                assert(rounds[0][k] == x);
            } else {
                assert(flat(r)[k - n] == x);
                let (a, b) = choose|a: int, b: int|
                    0 <= a < r.len() && 0 <= b < r[a].len() && #[trigger] r[a][b] == x;
                assert(rounds[a + 1][b] == x);
            }
        }
        if exists|a: int, b: int|
            0 <= a < rounds.len() && 0 <= b < rounds[a].len() && #[trigger] rounds[a][b] == x {
            let (a, b) = choose|a: int, b: int|
                0 <= a < rounds.len() && 0 <= b < rounds[a].len() && #[trigger] rounds[a][b] == x;
            if a == 0 {
                assert(f[b] == x);
            } else {
                assert(r[a - 1][b] == x);
                let k = choose|k: int| 0 <= k < flat(r).len() && flat(r)[k] == x;
                assert(f[n + k] == x);
            }
        }
    }
}

proof fn id_in_flat(steps: Seq<StepView>, rounds: Seq<Seq<int>>, id: Seq<char>)
    ensures
        ids_at(steps, flat(rounds)).contains(id) <==> exists|a: int, b: int|
            0 <= a < rounds.len() && 0 <= b < rounds[a].len() && steps[
            #[trigger] rounds[a][b]].id == id,
{
    let f = flat(rounds);
    let w = ids_at(steps, f);
    if w.contains(id) {
        let k = choose|k: int| 0 <= k < w.len() && w[k] == id;
        assert(f.contains(f[k]));
        place_in_flat(rounds, f[k]);
        let (a, b) = choose|a: int, b: int|
            0 <= a < rounds.len() && 0 <= b < rounds[a].len() && #[trigger] rounds[a][b] == f[k];
        assert(steps[rounds[a][b]].id == id);
    }
    if exists|a: int, b: int|
        0 <= a < rounds.len() && 0 <= b < rounds[a].len() && steps[#[trigger] rounds[a][b]].id
            == id {
        let (a, b) = choose|a: int, b: int|
            0 <= a < rounds.len() && 0 <= b < rounds[a].len() && steps[
            #[trigger] rounds[a][b]].id == id;
        place_in_flat(rounds, rounds[a][b]);
        let k = choose|k: int| 0 <= k < f.len() && f[k] == rounds[a][b];
        assert(w[k] == id);
    }
}

/// A step with the name stands in one of the rounds before the round `k`.
pub open spec fn came_before(
    steps: Seq<StepView>,
    rounds: Seq<Seq<int>>,
    k: int,
    id: Seq<char>,
) -> bool {
    exists|a: int, b: int|
        0 <= a < k && 0 <= b < rounds[a].len() && steps[#[trigger] rounds[a][b]].id == id
}

/// Each step of a workflow is run after all that it depends on: every name in its list is
/// that of a step in an earlier round. It is run as soon as that is so: one that is not in
/// the first round names a step that is in none of the rounds before the last one before
/// it. A step that is left over names one that is in no round.
pub proof fn steps_wait_for_all_they_need(steps: Seq<StepView>, k: int, i: int)
    ensures
        ({
            let (rounds, stuck) = schedule_from(steps, all_places(steps.len()), seq![]);
            &&& 0 <= k < rounds.len() && 0 <= i < rounds[k].len() ==> {
                let s = steps[rounds[k][i]];
                &&& forall|x: int|
                    0 <= x < s.depends_on.len() ==> came_before(
                        steps,
                        rounds,
                        k,
                        #[trigger] s.depends_on[x],
                    )
                &&& k > 0 ==> exists|x: int|
                    0 <= x < s.depends_on.len() && !came_before(
                        steps,
                        rounds,
                        k - 1,
                        #[trigger] s.depends_on[x],
                    )
            }
            &&& 0 <= i < stuck.len() ==> {
                let s = steps[stuck[i]];
                exists|x: int|
                    0 <= x < s.depends_on.len() && !came_before(
                        steps,
                        rounds,
                        rounds.len() as int,
                        #[trigger] s.depends_on[x],
                    )
            }
        }),
{
    let all = all_places(steps.len());
    let (rounds, stuck) = schedule_from(steps, all, seq![]);
    rounds_respect_dependencies(steps, all, seq![], k, i);
    if 0 <= k < rounds.len() && 0 <= i < rounds[k].len() {
        let s = steps[rounds[k][i]];
        let early = rounds.take(k);
        assert(seq![] + ids_at(steps, flat(early)) =~= ids_at(steps, flat(early)));
        assert forall|x: int| 0 <= x < s.depends_on.len() implies came_before(
            steps,
            rounds,
            k,
            #[trigger] s.depends_on[x],
        ) by {
            id_in_flat(steps, early, s.depends_on[x]);
            let (a, b) = choose|a: int, b: int|
                0 <= a < early.len() && 0 <= b < early[a].len() && steps[
                #[trigger] early[a][b]].id == s.depends_on[x];
            assert(steps[rounds[a][b]].id == s.depends_on[x]);
        }
        if k > 0 {
            waits_no_longer(steps, all, seq![], k, i);
            let before_it = rounds.take(k - 1);
            assert(seq![] + ids_at(steps, flat(before_it)) =~= ids_at(steps, flat(before_it)));
            let x = choose|x: int|
                0 <= x < s.depends_on.len() && !ids_at(steps, flat(before_it)).contains(
                    #[trigger] s.depends_on[x],
                );
            id_in_flat(steps, before_it, s.depends_on[x]);
            if came_before(steps, rounds, k - 1, s.depends_on[x]) {
                let (a, b) = choose|a: int, b: int|
                    0 <= a < k - 1 && 0 <= b < rounds[a].len() && steps[
                    #[trigger] rounds[a][b]].id == s.depends_on[x];
                assert(steps[before_it[a][b]].id == s.depends_on[x]);
            }
        }
    }
    if 0 <= i < stuck.len() {
        let s = steps[stuck[i]];
        assert(seq![] + ids_at(steps, flat(rounds)) =~= ids_at(steps, flat(rounds)));
        let x = choose|x: int|
            0 <= x < s.depends_on.len() && !ids_at(steps, flat(rounds)).contains(
                #[trigger] s.depends_on[x],
            );
        id_in_flat(steps, rounds, s.depends_on[x]);
        if came_before(steps, rounds, rounds.len() as int, s.depends_on[x]) {
            let (a, b) = choose|a: int, b: int|
                0 <= a < rounds.len() && 0 <= b < rounds[a].len() && steps[
                #[trigger] rounds[a][b]].id == s.depends_on[x];
            assert(steps[rounds[a][b]].id == s.depends_on[x]);
        }
    }
}

proof fn waits_no_longer(
    steps: Seq<StepView>,
    pending: Seq<int>,
    done: Seq<Seq<char>>,
    k: int,
    i: int,
)
    requires
        ({
            let (rounds, stuck) = schedule_from(steps, pending, done);
            0 < k < rounds.len() && 0 <= i < rounds[k].len()
        }),
    ensures
        ({
            let (rounds, stuck) = schedule_from(steps, pending, done);
            !can_run(
                steps[rounds[k][i]],
                done + ids_at(steps, flat(rounds.take(k - 1))),
            )
        }),
    decreases pending.len(),
{
    let ready = chosen(steps, pending, done, true);
    let still = chosen(steps, pending, done, false);
    let (rounds, stuck) = schedule_from(steps, pending, done);
    let d2 = done + ids_at(steps, ready);
    let (r2, s2) = schedule_from(steps, still, d2);
    assert(rounds.skip(1) =~= r2);
    assert(rounds[k] == r2[k - 1]);
    if k == 1 {
        assert(rounds.take(0) =~= seq![]);
        assert(done + ids_at(steps, flat(rounds.take(0))) =~= done);
        // The second round holds only steps that had to wait in the first one.
        let next = chosen(steps, still, d2, true);
        assert(r2[0] == next);
        chosen_from(steps, still, d2, true, i);
        let j = choose|j: int| 0 <= j < still.len() && still[j] == next[i];
        runs_after_dependencies(steps, pending, done, j);
    } else {
        waits_no_longer(steps, still, d2, k - 1, i);
        assert(rounds.take(k - 1).skip(1) =~= r2.take(k - 2));
        assert(rounds.take(k - 1)[0] == ready);
        assert(d2 + ids_at(steps, flat(r2.take(k - 2))) =~= done + ids_at(
            steps,
            flat(rounds.take(k - 1)),
        ));
    }
}

proof fn chosen_from(
    steps: Seq<StepView>,
    pending: Seq<int>,
    done: Seq<Seq<char>>,
    runnable: bool,
    i: int,
)
    requires
        0 <= i < chosen(steps, pending, done, runnable).len(),
    ensures
        pending.contains(chosen(steps, pending, done, runnable)[i]),
    decreases pending.len(),
{
    if pending.len() > 0 {
        let d = pending.drop_last();
        let c = chosen(steps, d, done, runnable);
        if i < c.len() {
            chosen_from(steps, d, done, runnable, i);
            let k = choose|k: int| 0 <= k < d.len() && d[k] == c[i];
            assert(pending[k] == c[i]);
        } else {
            assert(pending[pending.len() - 1] == chosen(steps, pending, done, runnable)[i]);
        }
    }
}

/// The estimate of a step is a quarter of the characters of its command and its arguments
/// together, rounded down, and a step is refused for its budget exactly where that is more
/// than the budget; a step without one is never refused.
pub proof fn budgets_are_held(s: StepView)
    requires
        s.cmd.len() + s.args.flatten().len() < 0x1_0000_0000_0000_0000,
    ensures
        ({
            let n = s.cmd.len() + s.args.flatten().len();
            &&& 4 * token_count(s.cmd, s.args) <= n < 4 * token_count(s.cmd, s.args) + 4
            &&& s.token_budget matches Some(b) ==> (over_budget(s) <==> n >= 4 * (b + 1))
            &&& s.token_budget is None ==> !over_budget(s)
        }),
{
    chars_of_all(s.args);
}

proof fn chars_of_all(a: Seq<Seq<char>>)
    ensures
        chars_in(a) == a.flatten().len(),
    decreases a.len(),
{
    if a.len() > 0 {
        chars_of_all(a.drop_last());
        assert(a.drop_last().push(a.last()) =~= a);
        a.drop_last().lemma_flatten_push(a.last());
    } else {
        assert(a.flatten().len() == 0);
    }
}

/// A step that fails each time is run once and then as often again as it may be retried; one
/// that succeeds is not run again.
pub proof fn retries_are_counted(s: StepView, runs: Seq<Run>)
    ensures
        runs.len() == 0 ==> !run_over(s, runs),
        runs.len() > 0 && runs.last().ok ==> run_over(s, runs),
        runs.len() > 0 && !runs.last().ok ==> (run_over(s, runs) <==> runs.len() >= s.retry + 1),
{
}

/// A step is what its value says; without a word on it a step is tried once, has no budget
/// and depends on nothing.
pub proof fn steps_are_read(
    v: JsonView,
    id: Seq<char>,
    cmd: Seq<char>,
    a: Seq<JsonView>,
    d: Seq<JsonView>,
    budget: u64,
    retry: u32,
)
    requires
        v.at("id"@) == JsonView::Str(id),
        v.at("cmd"@) == JsonView::Str(cmd),
    ensures
        step_of(v).id == id,
        step_of(v).cmd == cmd,
        v.at("args"@) == JsonView::Arr(a) ==> step_of(v).args == crate::json::texts_in(a),
        v.at("depends_on"@) == JsonView::Arr(d) ==> step_of(v).depends_on
            == crate::json::texts_in(d),
        v.at("depends_on"@) is Null ==> step_of(v).depends_on.len() == 0,
        v.at("token_budget"@) == JsonView::Int(budget as int) ==> step_of(v).token_budget == Some(
            budget,
        ),
        v.at("token_budget"@) is Null ==> step_of(v).token_budget is None,
        v.at("retry"@) == JsonView::Int(retry as int) ==> step_of(v).retry == retry,
        v.at("retry"@) is Null ==> step_of(v).retry == 0,
        v.at("parallel"@) == JsonView::Bool(true) ==> step_of(v).parallel,
        v.at("parallel"@) is Null ==> !step_of(v).parallel,
{
}

/// What a command said is its output, and where there is none its errors, without the
/// blanks around it and never more than 500 characters.
pub proof fn output_comes_first(stdout: Seq<char>, stderr: Seq<char>)
    ensures
        stdout.len() > 0 && trim(stdout).len() <= 500 ==> said(stdout, stderr) == trim(stdout),
        stdout.len() == 0 && trim(stderr).len() <= 500 ==> said(stdout, stderr) == trim(stderr),
        said(stdout, stderr).len() <= 500,
{
}

/// A result takes the place of an earlier one of the same step, and those of the other steps
/// stay.
pub proof fn later_results_count(v: Seq<ResultView>, x: ResultView, y: ResultView)
    ensures
        with_result(v, x).contains(x),
        y.id != x.id ==> (with_result(v, x).contains(y) <==> v.contains(y)),
        with_result(v, x).len() == v.len() || with_result(v, x).len() == v.len() + 1,
    decreases v.len(),
{
    let r = with_result(v, x);
    if v.len() == 0 {
        assert(r[0] == x);
    } else if v[0].id == x.id {
        assert(r[0] == x);
        assert(forall|i: int| 0 < i < v.len() ==> r[i] == v[i]);
        assert(r.len() == v.len());
        if y.id != x.id {
            if r.contains(y) {
                let i = choose|i: int| 0 <= i < r.len() && r[i] == y;
                assert(v[i] == y);
            }
            if v.contains(y) {
                let i = choose|i: int| 0 <= i < v.len() && v[i] == y;
                assert(r[i] == y);
            }
        }
    } else {
        let t = v.skip(1);
        let q = with_result(t, x);
        later_results_count(t, x, y);
        assert(r[0] == v[0]);
        assert(forall|i: int| 0 <= i < q.len() ==> r[i + 1] == q[i]);
        let k = choose|k: int| 0 <= k < q.len() && q[k] == x;
        assert(r[k + 1] == x);
        if y.id != x.id {
            if r.contains(y) {
                let i = choose|i: int| 0 <= i < r.len() && r[i] == y;
                if i > 0 {
                    assert(q[i - 1] == y);
                    let j = choose|j: int| 0 <= j < t.len() && t[j] == y;
                    assert(v[j + 1] == y);
                } else {
                    assert(v[0] == y);
                }
            }
            if v.contains(y) {
                let i = choose|i: int| 0 <= i < v.len() && v[i] == y;
                if i > 0 {
                    assert(t[i - 1] == y);
                    let j = choose|j: int| 0 <= j < q.len() && q[j] == y;
                    assert(r[j + 1] == y);
                } else {
                    assert(r[0] == y);
                }
            }
        }
    }
}

/// The tokens of the steps add up.
pub proof fn tokens_add_up(a: Seq<ResultView>, x: ResultView, b: Seq<ResultView>)
    ensures
        tokens_of(a + seq![x] + b) == tokens_of(a) + x.tokens + tokens_of(b),
        tokens_of(seq![]) == 0,
    decreases b.len(),
{
    let s = a + seq![x] + b;
    if b.len() == 0 {
        assert(s.drop_last() =~= a);
    } else {
        assert(s.drop_last() =~= a + seq![x] + b.drop_last());
        tokens_add_up(a, x, b.drop_last());
    }
}

/// A workflow that came to its end tells whether it went well, how many steps it had, what
/// they took, and the result of each, in order; one that is stuck tells which steps wait.
pub proof fn workflows_are_told(
    name: Seq<char>,
    ok: bool,
    steps: nat,
    tokens: u64,
    ms: u64,
    v: Seq<ResultView>,
    now: Seq<char>,
    ids: Seq<Seq<char>>,
)
    ensures
        ({
            let s = summary_value(name, ok, steps, tokens, ms, v, now);
            let d = deadlock_value(name, ids);
            &&& s.at("workflow"@) == JsonView::Str(name)
            &&& s.at("ok"@) == JsonView::Bool(ok)
            &&& s.at("total_steps"@) == JsonView::Int(steps as int)
            &&& s.at("total_tokens"@) == JsonView::Int(tokens as int)
            &&& s.at("duration_ms"@) == JsonView::Int(ms as int)
            &&& s.at("ts"@) == JsonView::Str(now)
            &&& s.at("results"@) matches JsonView::Arr(a) && a.len() == v.len() && forall|i: int|
                0 <= i < a.len() ==> (#[trigger] a[i]).at("id"@) == JsonView::Str(v[i].id)
                    && a[i].at("ok"@) == JsonView::Bool(v[i].ok) && a[i].at("tokens"@)
                    == JsonView::Int(v[i].tokens as int) && a[i].at("output"@) == JsonView::Str(
                    first(v[i].output, 200),
                )
            &&& d.at("workflow"@) == JsonView::Str(name)
            &&& d.at("ok"@) == JsonView::Bool(false)
            &&& d.at("pending"@) matches JsonView::Arr(p) && p.len() == ids.len() && forall|i: int|
                0 <= i < p.len() ==> #[trigger] p[i] == JsonView::Str(ids[i])
        }),
{
    broadcast use read_of_put;

    reveal_strlit("workflow");
    reveal_strlit("ok");
    reveal_strlit("total_steps");
    reveal_strlit("total_tokens");
    reveal_strlit("duration_ms");
    reveal_strlit("results");
    reveal_strlit("ts");
    reveal_strlit("error");
    reveal_strlit("pending");
    reveal_strlit("id");
    reveal_strlit("tokens");
    reveal_strlit("output");
    assert("workflow"@.len() == 8 && "ok"@.len() == 2 && "total_steps"@.len() == 11 && "total_tokens"@.len() == 12 && "duration_ms"@.len() == 11 && "results"@.len() == 7 && "ts"@.len() == 2 && "error"@.len() == 5 && "pending"@.len() == 7 && "id"@.len() == 2 && "tokens"@.len() == 6 && "output"@.len() == 6);
    assert("ok"@[0] != "ts"@[0]);
    assert("ok"@[0] != "id"@[0]);
    assert("total_steps"@[0] != "duration_ms"@[0]);
    assert("results"@[0] != "pending"@[0]);
    assert("ts"@[0] != "id"@[0]);
    assert("tokens"@[0] != "output"@[0]);
}

} // verus!
