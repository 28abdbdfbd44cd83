use codex_switch::config::{Config, FileConfig};
use codex_switch::handoff::short_model;
use codex_switch::projects::{match_project_in, LocalProject};
use codex_switch::rollout::relative;
use codex_switch::setup::{add_managed_block, new_config};
use codex_switch::sidecar::{has_managed_block, is_sidecar_main, managed_block};
use codex_switch::threads::{escape_like, is_uuid};
use codex_switch::ui::thousands;
use codex_switch::windows::{base64, encode_command, launch_script, ps_quote};

fn cfg() -> Config {
    Config::load(FileConfig::empty(), "/home/u", "/home/u/.local/share", false)
}

#[test]
fn shortens_vendor_prefixed_models() {
    assert_eq!(short_model("nex-agi/nex-n2.5-pro:free"), "nex-n2.5-pro:free");
    assert_eq!(short_model("glm-5.3-flash"), "glm-5.3-flash");
}

#[test]
fn relative_paths() {
    let rel = |p: &str, b: &str, w| relative(p, b, w);
    assert_eq!(
        rel("/home/u/.codex/sessions/a.jsonl", "/home/u/.codex", false),
        Some("sessions/a.jsonl".to_string())
    );
    assert_eq!(rel("/home/u/.codex2/a.jsonl", "/home/u/.codex", false), None);
    // Windows: case-insensitive, whole components only.
    assert_eq!(
        rel(
            "c:\\users\\rm2c\\.codex\\sessions\\a.jsonl",
            "C:\\Users\\RM2C\\.codex",
            true
        ),
        Some("sessions\\a.jsonl".to_string())
    );
    assert_eq!(
        rel(
            "C:\\Users\\RM2C\\.codex2\\a.jsonl",
            "C:\\Users\\RM2C\\.codex",
            true
        ),
        None
    );
    // Codex may record paths with the extended-length prefix.
    assert_eq!(
        rel(
            "\\\\?\\C:\\Users\\RM2C\\.codex\\a.jsonl",
            "C:\\Users\\RM2C\\.codex",
            true
        ),
        Some("a.jsonl".to_string())
    );
}

#[test]
fn recognises_uuids() {
    assert!(is_uuid("0199aaaa-bbbb-7ccc-8ddd-eeeeffff0000"));
    assert!(!is_uuid("ログイン画面"));
    assert!(!is_uuid("0199aaaa-bbbb-7ccc-8ddd"));
}

#[test]
fn escapes_like_wildcards() {
    assert_eq!(escape_like("50%_off\\"), "50\\%\\_off\\\\");
}

#[test]
fn groups_thousands() {
    assert_eq!(thousands(165_328), "165,328");
    assert_eq!(thousands(999), "999");
    assert_eq!(thousands(1_000), "1,000");
    assert_eq!(thousands(-1_234_567), "-1,234,567");
}

#[test]
fn base64_matches_known_vectors() {
    for (input, expected) in [
        ("", ""),
        ("f", "Zg=="),
        ("fo", "Zm8="),
        ("foo", "Zm9v"),
        ("foobar", "Zm9vYmFy"),
    ] {
        assert_eq!(base64(&input.as_bytes().to_vec()), expected);
    }
}

#[test]
fn encodes_utf16le_for_powershell() {
    // "a" is 61 00 in UTF-16LE.
    assert_eq!(encode_command("a"), "YQA=");
    // "日" is U+65E5, i.e. E5 65 in UTF-16LE.
    assert_eq!(encode_command("日"), "5WU=");
}

#[test]
fn quotes_powershell_literals() {
    assert_eq!(ps_quote("C:\\Users\\O'Neil"), "'C:\\Users\\O''Neil'");
}

#[test]
fn launch_script_sets_variables_inside_the_package() {
    let s = launch_script(
        "OpenAI.Codex_2p2nqsd0c76g0",
        "App",
        "C:\\Program Files\\WindowsApps\\OpenAI.Codex_1.0_x64__x",
        "C:\\Users\\a b\\.codex-switch",
        "C:\\Users\\a b\\AppData\\Local\\codex-switch\\user-data",
    );
    assert!(s.contains("-PackageFamilyName 'OpenAI.Codex_2p2nqsd0c76g0' -AppId 'App'"));
    assert!(s.contains("set \"CODEX_HOME=C:\\Users\\a b\\.codex-switch\""));
    assert!(s.contains(
        "set \"CODEX_ELECTRON_USER_DATA_PATH=C:\\Users\\a b\\AppData\\Local\\codex-switch\\user-data\""
    ));
    assert!(s.contains(
        "start \"\" \"C:\\Program Files\\WindowsApps\\OpenAI.Codex_1.0_x64__x\\app\\ChatGPT.exe\""
    ));
    assert!(s.contains(
        "\"--user-data-dir=C:\\Users\\a b\\AppData\\Local\\codex-switch\\user-data\""
    ));
}

fn project(key: &str, name: &str, roots: &[&str]) -> LocalProject {
    LocalProject {
        key: key.to_string(),
        id: Some(key.to_string()),
        name: Some(name.to_string()),
        root_paths: roots.iter().map(|r| r.to_string()).collect(),
    }
}

fn state() -> Vec<LocalProject> {
    vec![
        project("p1", "shop", &["/dev/shop"]),
        project("p2", "ledger", &["/dev/shop/ledger"]),
        project("p3", "sho", &["/dev/sho"]),
    ]
}

fn match_name(ps: &Vec<LocalProject>, cwd: &str, windows: bool) -> Option<String> {
    match_project_in(ps, cwd, windows).map(|(_, n)| n)
}

#[test]
fn picks_the_deepest_containing_root() {
    let s = state();
    assert_eq!(match_name(&s, "/dev/shop", false).unwrap(), "shop");
    assert_eq!(match_name(&s, "/dev/shop/ledger/src", false).unwrap(), "ledger");
}

#[test]
fn matches_whole_path_components_only() {
    // "/dev/sho" must not claim "/dev/shop".
    assert_eq!(match_name(&state(), "/dev/shop/x", false).unwrap(), "shop");
    assert!(match_name(&state(), "/elsewhere", false).is_none());
}

#[test]
fn windows_paths_ignore_case_and_separator_style() {
    let s = vec![
        project("w1", "shop", &["c:\\Users\\RM2C\\dev\\shop"]),
        project("w2", "sho", &["c:/Users/RM2C/dev/sho"]),
    ];
    let hit = |cwd: &str| match_name(&s, cwd, true);
    assert_eq!(hit("C:\\Users\\rm2c\\dev\\shop").as_deref(), Some("shop"));
    assert_eq!(hit("C:\\Users\\RM2C\\dev\\shop\\src").as_deref(), Some("shop"));
    assert_eq!(hit("C:\\Users\\RM2C\\dev\\sho").as_deref(), Some("sho"));
    assert_eq!(hit("C:\\Users\\RM2C\\dev\\other"), None);
}

#[test]
fn only_the_main_process_counts() {
    let mut c = cfg();
    c.user_data_dir = "C:\\Users\\x\\AppData\\Local\\codex-switch\\user-data".to_string();
    let args = |extra: &[&str]| -> Vec<String> {
        let mut v = vec!["C:\\Program Files\\WindowsApps\\app\\ChatGPT.exe".to_owned()];
        v.extend(extra.iter().map(|s| s.to_string()));
        v
    };
    let flag = "\"--user-data-dir=C:\\Users\\x\\AppData\\Local\\codex-switch\\user-data\"";
    // The app itself, with the switch passed quoted.
    assert!(is_sidecar_main(Some("ChatGPT"), &args(&[flag]), &c));
    // Its renderer: same exe and user data, but a helper.
    assert!(!is_sidecar_main(Some("ChatGPT"), &args(&["--type=renderer", flag]), &c));
    // The main instance, which has no --user-data-dir.
    assert!(!is_sidecar_main(Some("ChatGPT"), &args(&[]), &c));
    // Another program that happens to get the same switch.
    assert!(!is_sidecar_main(Some("Other"), &args(&[flag]), &c));
}

#[test]
fn toml_strings_round_trip() {
    // The managed block writes every value with the `toml` crate's quoting.
    let c = cfg();
    for s in [
        "glm-5.3-flash",
        "nex-agi/nex-n2.5-pro:free",
        "a\"b'c",
        "C:\\Users\\x\\a b.json",
    ] {
        let block = managed_block(&c.providers[0], s);
        let table: toml::Table = toml::from_str(&block).unwrap();
        assert_eq!(table["model"].as_str(), Some(s));
    }
}

#[test]
fn a_new_config_parses_and_defines_every_provider() {
    let c = cfg();
    let t: toml::Table = toml::from_str(&new_config(&c, false, None)).unwrap();
    assert_eq!(t["model_provider"].as_str(), Some("zai"));
    let providers = t["model_providers"].as_table().unwrap();
    for name in ["zai", "openrouter"] {
        let p = providers[name].as_table().unwrap();
        assert_eq!(p["wire_api"].as_str(), Some("responses"));
        assert_eq!(p["requires_openai_auth"].as_bool(), Some(false));
        assert!(p["auth"]["command"].as_str().is_some());
    }
}

#[test]
fn a_hand_written_config_keeps_its_provider() {
    let c = cfg();
    let hand = "model_provider = \"openrouter\"\nmodel = \"x/y:free\"\nmodel_reasoning_effort = \"low\"\n\n[model_providers.openrouter]\nname = \"OpenRouter\"\n";
    let out = match add_managed_block(hand, &c) {
        Ok(o) => o,
        Err(_) => panic!("the hand-written config parses"),
    };
    assert!(has_managed_block(&out));
    let t: toml::Table = toml::from_str(&out).unwrap();
    assert_eq!(t["model_provider"].as_str(), Some("openrouter"));
    assert_eq!(t["model"].as_str(), Some("x/y:free"));
    assert!(out.contains("# (codexSwitch init) model_provider = \"openrouter\""));
    // A key with the same prefix inside a table is not touched.
    assert!(out.contains("[model_providers.openrouter]\nname = \"OpenRouter\""));
}

#[test]
fn bundled_catalog_is_minimal_and_valid() {
    let text = codex_switch::catalog::bundled("openrouter").unwrap();
    let v: serde_json::Value = serde_json::from_str(text).unwrap();
    let models = v["models"].as_array().unwrap();
    assert!(!models.is_empty());
    for m in models {
        assert!(m.get("tool_mode").is_none(), "{}", m["slug"]);
        for key in ["slug", "shell_type", "supported_reasoning_levels"] {
            assert!(m.get(key).is_some(), "{} lacks {key}", m["slug"]);
        }
    }
}
