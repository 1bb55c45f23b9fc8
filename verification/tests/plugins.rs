use dsh_tools::deploy::{
    check_bundle_order, check_order, deploy_args, deploy_checks, detect_runtime, export_exists,
    exports_name, extract_named_imports, first_error_line, imported_modules, packages_imported,
    packages_named, patch_of, run, usage, Deployment, FileState, HostPkg, JsFile, Profile, Syntax,
};
use dsh_tools::guard::{guard_usage, restart_guard, used_bare, GuardPlugin, Load};
use dsh_tools::report::{CheckItem, Level};

fn pl_all(v: &[&str]) -> Vec<String> {
    v.iter().map(|s| s.to_string()).collect()
}

fn pl_host(name: &str, version: &str, entry: &str) -> HostPkg {
    HostPkg {
        name: name.to_string(),
        file: FileState::Text(format!("{{\"version\":\"{}\"}}", version)),
        entry: Some(entry.to_string()),
        fallback: None,
    }
}

fn pl_deployment(pkg: &str, hosts: Vec<HostPkg>, js: &str) -> Deployment {
    Deployment {
        dir: "/p".to_string(),
        pkg_path: "/p/package.json".to_string(),
        has_lib: true,
        pkg: FileState::Text(pkg.to_string()),
        hosts,
        js: vec![JsFile {
            name: "index.js".to_string(),
            text: Some(js.to_string()),
            syntax: Syntax::Good,
        }],
        patch_exists: false,
        profile: None,
    }
}

fn pl_texts(v: &Vec<CheckItem>) -> Vec<String> {
    v.iter().map(|c| format!("{:?} {}", c.level, c.msg)).collect()
}

#[test]
fn a_sound_deployment_passes() {
    let d = pl_deployment(
        "{\"name\":\"x\",\"peerDependencies\":{\"cordis\":\"^4.0.0\"},\"dependencies\":{}}",
        vec![pl_host("cordis", "4.0.1", "export { Context, Service as S }")],
        "import { Context } from 'cordis';",
    );
    assert_eq!(
        pl_texts(&deploy_checks(&d)),
        pl_all(&[
            "Pass 插件名: x",
            "Pass 宿主 cordis @ 4.0.1 （期望 ^4.0.0）",
            "Pass dependencies 为空（全部走宿主 peer）",
            "Pass [index.js] 语法 OK",
        ])
    );
    let o = run("/r", false, &d);
    assert_eq!(o.code, 0);
    assert_eq!(o.lines.last().unwrap(), "✅ 通过 —— 可安全部署（仍需收包端二次自检）");
    assert_eq!(o.lines[0], "══ deploy-check · 部署安全审查 ══");
    assert_eq!(o.lines[1], "插件: /p  宿主 runtime: /r");
    assert_eq!(o.lines[2], "─".repeat(52));
}

#[test]
fn a_missing_host_package_is_found() {
    let d = pl_deployment(
        "{\"name\":\"x\",\"peerDependencies\":{\"gone\":\"\"}}",
        vec![],
        "import { a } from 'gone';\nconst b = require('away');",
    );
    let t = pl_texts(&deploy_checks(&d));
    assert!(t.contains(&"Fail 宿主缺依赖包: gone (期望 *)——解析链不可达".to_string()));
    assert!(t.contains(&"Fail [index.js] import 'gone' → 宿主无此包（解析链不可达）".to_string()));
    assert!(t.contains(&"Fail [index.js] import 'away' → 宿主无此包（解析链不可达）".to_string()));
    assert_eq!(run("/r", false, &d).code, 1);
}

#[test]
fn a_name_that_is_no_longer_exported_is_found() {
    let d = pl_deployment(
        "{\"name\":\"x\"}",
        vec![pl_host("cordis", "4.0.1", "export { Context }")],
        "import { definePlugin, Context } from 'cordis';",
    );
    assert_eq!(
        pl_texts(&deploy_checks(&d)),
        pl_all(&[
            "Pass 插件名: x",
            "Fail [index.js] import { definePlugin } from 'cordis' → API 漂移：宿主包未导出 definePlugin（cordis 4.x 已移除 definePlugin 等）",
            "Pass [index.js] 语法 OK",
        ])
    );
}

#[test]
fn drifting_versions_are_warned_of() {
    let d = pl_deployment(
        "{\"name\":\"x\",\"dependencies\":{\"a\":\"2.0.0\",\"b\":\"link:../b\"}}",
        vec![pl_host("a", "1.0.0", ""), pl_host("b", "1.0.0", "")],
        "",
    );
    assert_eq!(
        pl_texts(&deploy_checks(&d)),
        pl_all(&[
            "Pass 插件名: x",
            "Warn 宿主 a @ 1.0.0 ≠ 期望 2.0.0 —— 版本漂移",
            "Pass 宿主 b @ 1.0.0 （期望 link:../b）",
            "Warn deps[a] 用 registry 版本 2.0.0 —— 跨设备需确认宿主已装同版本",
            "Pass deps[b] 用 link:../b 语法（本地/远程引用）",
            "Pass [index.js] 语法 OK",
        ])
    );
    assert_eq!(run("/r", false, &d).code, 1);
}

#[test]
fn a_deployment_without_its_files_fails() {
    let d = Deployment {
        dir: "/p".to_string(),
        pkg_path: "/p/package.json".to_string(),
        has_lib: false,
        pkg: FileState::Missing,
        hosts: vec![],
        js: vec![],
        patch_exists: false,
        profile: None,
    };
    assert_eq!(
        pl_texts(&deploy_checks(&d)),
        pl_all(&["Fail 缺 lib/ 目录: /p", "Fail 缺 package.json: /p/package.json"])
    );
    let d = Deployment { pkg: FileState::Unreadable("e".to_string()), has_lib: true, ..d };
    assert_eq!(pl_texts(&deploy_checks(&d)), pl_all(&["Fail 读 package.json 失败: e"]));
    let d = Deployment { pkg: FileState::Text("{".to_string()), ..d };
    assert!(pl_texts(&deploy_checks(&d))[0].starts_with("Fail package.json 解析失败: EOF"));
}

#[test]
fn a_patch_that_is_not_there_is_found() {
    let pkg = "{\"name\":\"x\",\"dsh\":{\"bundle\":{\"patch\":\"cordis.patch.yml\"}}}";
    assert_eq!(patch_of(pkg), Some("cordis.patch.yml".to_string()));
    let mut d = pl_deployment(pkg, vec![], "");
    d.js = vec![];
    assert_eq!(
        pl_texts(&deploy_checks(&d))[1],
        "Fail bundle.patch 引用的 cordis.patch.yml 不存在（配置不生效）"
    );
    d.patch_exists = true;
    assert_eq!(pl_texts(&deploy_checks(&d))[1], "Pass bundle.patch → cordis.patch.yml 存在");
}

#[test]
fn a_syntax_error_fails() {
    let mut d = pl_deployment("{\"name\":\"x\"}", vec![], "");
    d.js[0].syntax = Syntax::Bad("SyntaxError".to_string());
    assert_eq!(pl_texts(&deploy_checks(&d))[1], "Fail [index.js] 语法错误: SyntaxError");
    d.js[0].syntax = Syntax::Skipped;
    assert_eq!(deploy_checks(&d).len(), 1);
    assert_eq!(first_error_line("a\nb"), "a");
    assert_eq!(first_error_line(""), "?");
}

#[test]
fn bundles_stand_in_order() {
    let mut out: Vec<CheckItem> = Vec::new();
    let (bus, inbox) = ("dsh-plugin-agent-bus", "dsh-plugin-central-inbox");
    check_order(&pl_all(&["z", bus, inbox]), &mut out);
    check_order(&pl_all(&[inbox, bus]), &mut out);
    check_order(&pl_all(&[inbox]), &mut out);
    check_order(&pl_all(&[bus]), &mut out);
    assert_eq!(
        pl_texts(&out),
        pl_all(&[
            "Pass bundles 顺序 OK: dsh-plugin-agent-bus (idx 1) 先于 dsh-plugin-central-inbox (idx 2)",
            "Fail bundles 顺序错误: dsh-plugin-agent-bus (idx 1) 在 dsh-plugin-central-inbox (idx 0) 之后——依赖插件必须先于依赖它的插件",
            "Warn dsh-plugin-agent-bus 未在 bundles 中（dsh-plugin-central-inbox 依赖它，可能加载失败）",
        ])
    );
}

#[test]
fn profiles_that_say_nothing_are_passed_over() {
    let mut out: Vec<CheckItem> = Vec::new();
    let p = |t: Option<&str>| Profile { path: "/q".to_string(), text: t.map(|x| x.to_string()) };
    check_bundle_order(&p(None), &mut out);
    check_bundle_order(&p(Some("{")), &mut out);
    check_bundle_order(&p(Some("{}")), &mut out);
    check_bundle_order(
        &p(Some("{\"dsh\":{\"profile\":{\"bundles\":[\"dsh-plugin-agent-bus\",\"dsh-plugin-central-inbox\"]}}}")),
        &mut out,
    );
    assert_eq!(out[0].msg, "--profile 指定文件不可读: /q（跳过顺序检查）");
    assert_eq!(out[1].msg, "profile package.json 解析失败（跳过顺序检查）");
    assert_eq!(out[2].msg, "profile 无 dsh.profile.bundles（跳过顺序检查）");
    assert!(out[3].level == Level::Pass);
}

#[test]
fn imports_are_read() {
    assert_eq!(
        extract_named_imports("import { a, b as c , d } from 'x'"),
        pl_all(&["a", "b", "d"])
    );
    assert!(extract_named_imports("import x from 'y'").is_empty());
    let mods = imported_modules(
        "import { a } from 'x';\nimport './l';\nimport f from './m';\nimport fs from 'node:fs';\nconst y = require('b/c');\nimport { z } from 'x';",
    );
    let got: Vec<(String, Vec<String>)> =
        mods.iter().map(|g| (g.key.clone(), g.items.clone())).collect();
    assert_eq!(
        got,
        vec![
            ("b/c".to_string(), vec![]),
            ("x".to_string(), pl_all(&["a", "z"])),
        ]
    );
    assert_eq!(packages_imported("const y = require('q');"), pl_all(&["q"]));
    assert_eq!(packages_imported("const y = require(\"q\");"), pl_all(&["q"]));
    assert_eq!(packages_imported("import x from \"y\";"), pl_all(&["y"]));
    assert_eq!(packages_imported("import 'side';"), pl_all(&["side"]));
    assert_eq!(
        packages_imported("const a = require('m'), b = require(\"n\");"),
        pl_all(&["m", "n"])
    );
    let several = imported_modules("import {\n  a,\n  b as c,\n} from \"z\";");
    assert_eq!(several.len(), 1);
    assert_eq!(several[0].key, "z");
    assert_eq!(several[0].items, pl_all(&["a", "b"]));
    assert_eq!(
        packages_named("{\"peerDependencies\":{\"a\":\"1\"},\"dependencies\":{\"b\":\"2\"}}"),
        pl_all(&["a", "b"])
    );
}

#[test]
fn exports_are_recognized() {
    assert!(exports_name("export { A, B as C }", "B"));
    assert!(exports_name("export { A, B as C }", "C"));
    assert!(exports_name("export {\n  A,\n  Long,\n}\n", "Long"));
    assert!(exports_name("export { A };\nexport {\n  Z as Y\n};", "Z"));
    assert!(!exports_name("export {\n  A,\n}\nB()", "B"));
    assert!(exports_name("  export const X = 1", "X"));
    assert!(exports_name("exports.Y = 2", "Y"));
    assert!(exports_name("function z() {}", "z"));
    assert!(!exports_name("export { A }", "B"));
    let unreadable = HostPkg {
        name: "n".to_string(),
        file: FileState::Unreadable("e".to_string()),
        entry: None,
        fallback: None,
    };
    assert!(export_exists(&unreadable, "anything"));
}

#[test]
fn deployment_arguments() {
    let a = deploy_args(&pl_all(&["/p", "/q", "--runtime", "/r", "--json", "--profile", "/f"]));
    assert_eq!(a.plugin_dir, "/p");
    assert_eq!(a.runtime, "/r");
    assert_eq!(a.profile, Some("/f".to_string()));
    assert!(a.json_out);
    assert_eq!(usage().code, 1);
    assert_eq!(detect_runtime(true), "/Applications/CLD.app/Contents/Resources/dsh-runtime/runtime");
    assert_eq!(detect_runtime(false), ".");
}

#[test]
fn a_deployment_as_a_value() {
    let mut d = pl_deployment("{\"name\":\"x\"}", vec![], "");
    d.js = vec![];
    let o = run("/r", true, &d);
    assert_eq!(o.code, 0);
    assert_eq!(
        o.lines,
        pl_all(&["{\n  \"checks\": [\n    {\n      \"level\": \"OK\",\n      \"msg\": \"插件名: x\"\n    }\n  ],\n  \"plugin_dir\": \"/p\",\n  \"runtime\": \"/r\",\n  \"summary\": {\n    \"fail\": 0,\n    \"ok\": 1,\n    \"warn\": 0\n  }\n}"])
    );
}

fn pl_guarded(pkg: &str, js: &str) -> GuardPlugin {
    GuardPlugin {
        exists: true,
        deployment: pl_deployment(pkg, vec![], js),
        pkg: Ok(pkg.to_string()),
        entry: Some(js.to_string()),
        links: Some(2),
        load: Load::Tried { success: true, out: "LOAD_OK:apply\n".to_string(), err: String::new() },
    }
}

#[test]
fn a_module_without_its_type_shuts_the_barrier() {
    let p = pl_guarded("{\"name\":\"x\"}", "export const apply = 1;");
    let o = restart_guard(&vec![p], false);
    assert_eq!(o.code, 1);
    assert!(o.lines.contains(&"[FAIL] [/p] lib/index.js 用 ESM 语法但缺 type:module（CJS 解析 → SyntaxError → 加载即崩）".to_string()));
    assert!(o.lines.contains(&"[WARN] [/p] peerDependencies 为空（注入服务可能无法解析，建议声明）".to_string()));
    assert!(o.lines.contains(&"[OK] [/p] 模块加载实测 OK: LOAD_OK:apply".to_string()));
    assert_eq!(o.lines.last().unwrap(), "❌ 强制门: 存在 FAIL，禁止重启 CLD/DSH（R011 沙箱先行）");
}

#[test]
fn a_sound_plugin_opens_the_barrier() {
    let p = pl_guarded("{\"name\":\"x\",\"type\":\"module\"}", "export const apply = 1;");
    let o = restart_guard(&vec![p], false);
    assert_eq!(o.code, 0);
    assert_eq!(o.lines[0], "[INFO] ══ restart-guard 审查: /p");
    assert!(o.lines.contains(&"[OK] [/p] type:module + ESM 语法匹配".to_string()));
    assert!(o.lines.contains(&"[OK] [/p] node_modules/@deepseek-ai 符号链接 2 个".to_string()));
    assert_eq!(o.lines.last().unwrap(), "✅ 强制门: 通过，可重启（R011）");
}

#[test]
fn a_failed_deployment_shuts_the_barrier_too() {
    let p = pl_guarded(
        "{\"name\":\"x\",\"type\":\"module\"}",
        "import { a } from 'gone';\nexport const apply = a;",
    );
    let o = restart_guard(&vec![p], false);
    assert_eq!(o.code, 1);
    assert!(o.lines.contains(&"[FAIL] [index.js] import 'gone' → 宿主无此包（解析链不可达）".to_string()));
}

#[test]
fn bare_calls_need_their_import() {
    assert!(used_bare("x = join(a)", "join("));
    assert!(!used_bare("x = p.join(a)", "join("));
    assert!(!used_bare("disjoin(a)", "join("));
    let p = pl_guarded("{\"name\":\"x\",\"type\":\"module\"}", "export const a = join(b);");
    let o = restart_guard(&vec![p], false);
    assert!(o.lines.contains(&"[FAIL] [index.js] 用了裸 join( 但缺 ESM 导入（type:module 下 ReferenceError）".to_string()));
    let q = pl_guarded(
        "{\"name\":\"x\",\"type\":\"module\"}",
        "import { join } from 'node:path';\nexport const a = join(b);",
    );
    assert_eq!(restart_guard(&vec![q], false).code, 0);
    let r = pl_guarded(
        "{\"name\":\"x\",\"type\":\"module\"}",
        "import { join, dirname } from 'path';\nexport const a = join(b);",
    );
    let bare = "[FAIL] [index.js] 用了裸 join( 但缺 ESM 导入（type:module 下 ReferenceError）".to_string();
    assert!(!restart_guard(&vec![r], false).lines.contains(&bare));
    let s = pl_guarded(
        "{\"name\":\"x\",\"type\":\"module\"}",
        "import { dirname } from 'path';\nexport const a = join(b);",
    );
    assert!(restart_guard(&vec![s], false).lines.contains(&bare));
}

#[test]
fn a_plugin_that_is_not_there_shuts_the_barrier() {
    let mut p = pl_guarded("{}", "");
    p.exists = false;
    let o = restart_guard(&vec![p], true);
    assert_eq!(o.code, 1);
    assert_eq!(o.lines[1], "{\"level\":\"FAIL\",\"msg\":\"目录不存在: /p\"}");
    assert_eq!(guard_usage().code, 1);
}

#[test]
fn a_module_that_does_not_load_shuts_the_barrier() {
    let mut p = pl_guarded("{\"name\":\"x\",\"type\":\"module\"}", "export const a = 1;");
    p.load = Load::Tried { success: false, out: String::new(), err: "boom\nmore".to_string() };
    let o = restart_guard(&vec![p], false);
    assert_eq!(o.code, 1);
    assert!(o.lines.contains(&"[FAIL] [/p] 模块加载实测失败: boom".to_string()));
    let mut q = pl_guarded("{\"name\":\"x\",\"type\":\"module\"}", "export const a = 1;");
    q.load = Load::Unavailable;
    q.links = None;
    let o = restart_guard(&vec![q], false);
    assert_eq!(o.code, 0);
    assert!(o.lines.contains(&"[WARN] [/p] node 不可用，跳过加载实测".to_string()));
}
