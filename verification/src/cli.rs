//! The command line: what is printed where no subcommand is given, and the arguments
//! of the bus.
use vstd::prelude::*;
use crate::args::{comma_list, last_value, names, options, read_args, read_list, value_or};
use crate::bus::Config;
use crate::num::{dec, decimal};
use crate::proxy::{port_or, read_port};
use crate::report::say;
use crate::text::{cat, cat4, maybe, texts};

verus! {

/// What is printed where no subcommand is given.
pub open spec fn usage_lines() -> Seq<Seq<char>> {
    seq![
        "dsh-tools — 黑板固化工具集（Rust）"@,
        "子命令:"@,
        "  bb-read <key> [--full] | --prefix P --last N | --scan FILE"@,
        "  bb-sub --agent NAME --prefixes 'a,b,c'"@,
        "  handoff --name X --files 'a b' --to i9 --type ocr [--priority P2] --desc '...'"@,
        "  workflow <workflow.json>   # 串行/并行编排（token 预算门禁）"@,
        "  bus-bridge --port 8791 --queue ~/.dsh/bus-queue  # 跨设备总线桥"@,
        "  version --type fix|feat|breaking --desc '描述' [--repo 路径] [--dry-run]  # 自动化版本管理"@,
        "  repo setup/push/sync/status  # GitHub/Gitee 双仓与版本全链路"@,
    ]
}

/// What is printed where no subcommand is given.
pub fn usage() -> (l: Vec<String>)
    ensures
        texts(l@) == usage_lines(),
{
    let mut l: Vec<String> = Vec::new();
    say(&mut l, "dsh-tools — 黑板固化工具集（Rust）");
    say(&mut l, "子命令:");
    say(&mut l, "  bb-read <key> [--full] | --prefix P --last N | --scan FILE");
    say(&mut l, "  bb-sub --agent NAME --prefixes 'a,b,c'");
    say(
        &mut l,
        "  handoff --name X --files 'a b' --to i9 --type ocr [--priority P2] --desc '...'",
    );
    say(&mut l, "  workflow <workflow.json>   # 串行/并行编排（token 预算门禁）");
    say(&mut l, "  bus-bridge --port 8791 --queue ~/.dsh/bus-queue  # 跨设备总线桥");
    say(
        &mut l,
        "  version --type fix|feat|breaking --desc '描述' [--repo 路径] [--dry-run]  # 自动化版本管理",
    );
    say(&mut l, "  repo setup/push/sync/status  # GitHub/Gitee 双仓与版本全链路");
    assert(texts(l@) =~= usage_lines());
    l
}

/// The options of the bus that take a value.
pub open spec fn bridge_valued() -> Seq<Seq<char>> {
    seq![
        "--port"@,
        "--host"@,
        "--token"@,
        "--queue"@,
        "--allowed-from"@,
        "--allowed-actions"@,
    ]
}

/// The parts of a list, where one is given.
pub open spec fn list_of(v: Option<Seq<char>>) -> Seq<Seq<char>> {
    match v {
        Some(s) => comma_list(s),
        None => seq![],
    }
}

fn list_in(v: &Option<String>) -> (r: Vec<String>)
    ensures
        texts(r@) == list_of(maybe(*v)),
{
    match v {
        Some(s) => read_list(s.as_str()),
        None => {
            let none: Vec<String> = Vec::new();
            assert(texts(none@) =~= seq![]);
            none
        },
    }
}

/// Reads the arguments of the bus; the queue stands below the home directory where no
/// other place is given.
pub fn bus_bridge_args(home: &str, args: &[String]) -> (r: Config)
    ensures
        ({
            let o = options(texts(args@), bridge_valued());
            &&& r.port == port_or(last_value(o, "--port"@), 8791)
            &&& r.host@ == value_or(o, "--host"@, "0.0.0.0"@)
            &&& r.token@ == value_or(o, "--token"@, seq![])
            &&& r.queue_dir@ == value_or(o, "--queue"@, home@ + "/.dsh/bus-queue"@)
            &&& texts(r.allowed_from@) == list_of(last_value(o, "--allowed-from"@))
            &&& texts(r.allowed_actions@) == list_of(last_value(o, "--allowed-actions"@))
        }),
{
    let valued = ["--port", "--host", "--token", "--queue", "--allowed-from", "--allowed-actions"];
    let a = read_args(args, &valued);
    assert(names(valued@) =~= bridge_valued());
    proof {
        reveal_strlit("");
        assert(""@ =~= seq![]);
    }
    let queue = cat(home, "/.dsh/bus-queue");
    Config {
        port: read_port(&a.value("--port"), 8791),
        host: a.value_or("--host", "0.0.0.0"),
        token: a.value_or("--token", ""),
        queue_dir: a.value_or("--queue", queue.as_str()),
        allowed_from: list_in(&a.value("--allowed-from")),
        allowed_actions: list_in(&a.value("--allowed-actions")),
    }
}

/// What is printed once the bus listens.
pub open spec fn bridge_lines(cfg: &Config) -> Seq<Seq<char>> {
    seq![
        "[bus-bridge] listening on http://"@ + cfg.host@ + ":"@ + dec(cfg.port as nat),
        "[bus-bridge] queue: "@ + cfg.queue_dir@,
        "[bus-bridge] auth: "@ + if cfg.token@.len() == 0 {
            "disabled"@
        } else {
            "X-Webhook-Token enabled"@
        },
    ]
}

/// What is printed once the bus listens.
pub fn bridge_banner(cfg: &Config) -> (l: Vec<String>)
    ensures
        texts(l@) == bridge_lines(cfg),
{
    let mut l: Vec<String> = Vec::new();
    say(
        &mut l,
        cat4(
            "[bus-bridge] listening on http://",
            cfg.host.as_str(),
            ":",
            decimal(cfg.port as u64).as_str(),
        ).as_str(),
    );
    say(&mut l, cat("[bus-bridge] queue: ", cfg.queue_dir.as_str()).as_str());
    let auth = if cfg.token.as_str().is_empty() {
        "disabled"
    } else {
        "X-Webhook-Token enabled"
    };
    say(&mut l, cat("[bus-bridge] auth: ", auth).as_str());
    assert(texts(l@) =~= bridge_lines(cfg));
    l
}

} // verus!
