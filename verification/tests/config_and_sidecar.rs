use codex_switch::config::{
    default_config_path, default_user_data_dir, expand, join_strings, upsert, Config, ConfigError,
    FileConfig, FileProvider, Provider,
};
use codex_switch::handoff::relaunch_target;
use codex_switch::paths::{expand_in, join, strip_verbatim};
use codex_switch::sidecar::{
    active, bundled_codex, codex_bin, ensure_key, has_managed_block, launch_action, launch_target,
    managed_block, open_args, quit_howto, quit_verb, set_active_text, Active, CodexBin,
    LaunchAction, Platform, SidecarError,
};

const BEGIN: &str = "# >>> codexSwitch managed: active provider >>>";
const END: &str = "# <<< codexSwitch managed: active provider <<<";

fn cfg() -> Config {
    Config::load(FileConfig::empty(), "/home/u", "/home/u/.local/share", false)
}

fn mac_cfg() -> Config {
    Config::load(FileConfig::empty(), "/home/u", "/home/u/.local/share", true)
}

fn named<'a>(c: &'a Config, name: &str) -> &'a Provider {
    c.provider(name).ok().unwrap()
}

fn provider(name: &str, model: &str) -> Provider {
    Provider {
        name: name.to_string(),
        label: name.to_uppercase(),
        model: model.to_string(),
        catalog: format!("/c/{name}.json"),
        effort: "low".to_string(),
        key_file: format!("/k/{name}.key"),
        base_url: None,
        catalog_url: None,
    }
}

fn active_of(provider: &str, model: &str) -> Active {
    Active {
        provider: provider.to_string(),
        model: model.to_string(),
    }
}

#[test]
fn defaults_without_a_config_file() {
    let c = cfg();
    assert_eq!(c.source_home, "/home/u/.codex");
    assert_eq!(c.sidecar_home, "/home/u/.codex-switch");
    assert_eq!(c.user_data_dir, "/home/u/.local/share/codex-switch/user-data");
    assert_eq!(c.app_path, "");
    assert_eq!(c.app_process_name, "ChatGPT");
    assert!(c.codex_bin.is_none());
    assert_eq!(c.windows_package, "OpenAI.Codex");
    assert_eq!(c.windows_app_id, "App");
    assert_eq!(c.cache_dir, "/home/u/.local/share/codex-switch");
    let names: Vec<&str> = c.providers.iter().map(|p| p.name.as_str()).collect();
    assert_eq!(names, vec!["openrouter", "zai"]);
    let zai = named(&c, "zai");
    assert_eq!(zai.label, "Z.ai");
    assert_eq!(zai.model, "glm-5.3-flash");
    assert_eq!(zai.catalog, "/home/u/.codex-switch/zai_models.json");
    assert_eq!(zai.effort, "high");
    assert_eq!(zai.key_file, "/home/u/.codex/zai.key");
    assert_eq!(zai.base_url.as_deref(), Some("https://api.z.ai/api/v1"));
    assert_eq!(zai.catalog_url.as_deref(), Some("https://api.z.ai/api/v1/models"));
    let or = named(&c, "openrouter");
    assert_eq!(or.label, "OpenRouter");
    assert_eq!(or.catalog, "/home/u/.codex-switch/model_catalog.json");
    assert_eq!(or.key_file, "/home/u/.codex/openrouter.key");
    assert_eq!(or.base_url.as_deref(), Some("https://openrouter.ai/api/v1"));
    assert!(or.catalog_url.is_none());
}

#[test]
fn macos_defaults() {
    let c = mac_cfg();
    assert_eq!(
        c.user_data_dir,
        "/home/u/Library/Application Support/codex-switch/user-data"
    );
    assert_eq!(c.app_path, "/Applications/ChatGPT.app");
    assert_eq!(
        default_user_data_dir("/h", "/l", false),
        "/l/codex-switch/user-data"
    );
}

#[test]
fn a_provider_table_replaces_the_default_of_that_name_and_adds_others() {
    let mut file = FileConfig::empty();
    file.sidecar_home = Some("~/side".to_string());
    file.codex_bin = Some("~/bin/codex".to_string());
    file.providers = vec![
        (
            "openrouter".to_string(),
            FileProvider {
                label: None,
                model: "x/y:free".to_string(),
                catalog: "~/c.json".to_string(),
                effort: "medium".to_string(),
                key_file: "/keys/or.key".to_string(),
            },
        ),
        (
            "mistral".to_string(),
            FileProvider {
                label: Some("Mistral".to_string()),
                model: "m-large".to_string(),
                catalog: "/abs/m.json".to_string(),
                effort: "low".to_string(),
                key_file: "~/m.key".to_string(),
            },
        ),
    ];
    let c = Config::load(file, "/home/u", "/home/u/.local/share", false);
    assert_eq!(c.sidecar_home, "/home/u/side");
    assert_eq!(c.codex_bin.as_deref(), Some("/home/u/bin/codex"));
    let names: Vec<&str> = c.providers.iter().map(|p| p.name.as_str()).collect();
    assert_eq!(names, vec!["mistral", "openrouter", "zai"]);
    let or = named(&c, "openrouter");
    assert_eq!(or.label, "openrouter");
    assert_eq!(or.model, "x/y:free");
    assert_eq!(or.catalog, "/home/u/c.json");
    assert_eq!(or.effort, "medium");
    assert!(or.base_url.is_none());
    let m = named(&c, "mistral");
    assert_eq!(m.label, "Mistral");
    assert_eq!(m.key_file, "/home/u/m.key");
    // The default that was not replaced follows the new sidecar home.
    assert_eq!(named(&c, "zai").catalog, "/home/u/side/zai_models.json");
}

#[test]
fn an_unknown_provider_is_refused_with_the_known_ones() {
    let c = cfg();
    match c.provider("nope") {
        Err(e) => {
            let ConfigError::UnknownProvider { name, known } = &e;
            assert_eq!(name, "nope");
            assert_eq!(known, &vec!["openrouter".to_string(), "zai".to_string()]);
            assert_eq!(e.message(), "未知のプロバイダです: nope（設定済み: openrouter, zai）");
        }
        Ok(_) => panic!("nope is not a provider"),
    }
}

#[test]
fn upsert_then_lookup_finds_what_was_inserted() {
    let mut ps = vec![provider("b", "1"), provider("d", "2")];
    upsert(&mut ps, provider("c", "3"));
    upsert(&mut ps, provider("a", "4"));
    upsert(&mut ps, provider("d", "5"));
    let names: Vec<&str> = ps.iter().map(|p| p.name.as_str()).collect();
    assert_eq!(names, vec!["a", "b", "c", "d"]);
    let mut c = cfg();
    c.providers = ps;
    assert_eq!(named(&c, "d").model, "5");
    assert_eq!(named(&c, "a").model, "4");
}

#[test]
fn config_path_and_home_expansion() {
    assert_eq!(default_config_path(None, "/home/u"), "/home/u/.config/codex-switch/config.toml");
    assert_eq!(
        default_config_path(Some(String::new()), "/home/u"),
        "/home/u/.config/codex-switch/config.toml"
    );
    assert_eq!(default_config_path(Some("~/c.toml".to_string()), "/home/u"), "/home/u/c.toml");
    assert_eq!(default_config_path(Some("/etc/c.toml".to_string()), "/home/u"), "/etc/c.toml");
    assert_eq!(expand_in("/home/u", "~"), "/home/u");
    assert_eq!(expand_in("/home/u", "~/x/y"), "/home/u/x/y");
    assert_eq!(expand_in("/home/u", "~x"), "~x");
    assert_eq!(expand_in("/home/u", "rel/x"), "rel/x");
    assert_eq!(join("/a", "b"), "/a/b");
    assert_eq!(join("/a/", "b"), "/a/b");
    assert_eq!(join("/a", "/b"), "/b");
    assert_eq!(join("", "b"), "b");
    // Without `~` there is nothing to expand, so no home is needed.
    assert_eq!(expand("/abs/p"), Some("/abs/p".to_string()));
    assert_eq!(join_strings(&vec!["a".to_string(), "b".to_string(), "c".to_string()], ", "), "a, b, c");
    assert_eq!(join_strings(&vec![], ", "), "");
}

#[test]
fn strips_the_extended_length_prefix() {
    let s = |p: &str| -> String { strip_verbatim(&p.chars().collect()).into_iter().collect() };
    assert_eq!(s("\\\\?\\C:\\Users\\a"), "C:\\Users\\a");
    assert_eq!(s("\\\\?\\UNC\\server\\share\\x"), "\\\\server\\share\\x");
    assert_eq!(s("C:\\Users\\a"), "C:\\Users\\a");
}

fn config_text(p: &Provider, model: &str) -> String {
    format!(
        "# my settings\napproval_policy = \"never\"\n\n{}\n\n[model_providers.zai]\nname = \"Z.ai\"\n",
        managed_block(p, model)
    )
}

#[test]
fn the_managed_block_is_toml_between_the_markers() {
    let c = cfg();
    let block = managed_block(named(&c, "zai"), "glm-5.3-flash");
    assert_eq!(
        block,
        format!(
            "{BEGIN}\nmodel_provider = \"zai\"\nmodel = \"glm-5.3-flash\"\nmodel_catalog_json = \"/home/u/.codex-switch/zai_models.json\"\nmodel_reasoning_effort = \"high\"\n{END}"
        )
    );
    assert!(has_managed_block(&block));
    assert!(!has_managed_block("model = \"x\"\n"));
    // The end marker before the begin marker is no block.
    assert!(!has_managed_block(&format!("{END}\n{BEGIN}\n")));
}

#[test]
fn rewriting_the_block_keeps_the_rest_and_reads_back() {
    let c = cfg();
    let text = config_text(named(&c, "zai"), "glm-5.3-flash");
    let a = active(&text, "/x/config.toml").ok().unwrap();
    assert_eq!(a.provider, "zai");
    assert_eq!(a.model, "glm-5.3-flash");

    let out = set_active_text(&text, named(&c, "openrouter"), "x/y:free", "/x/config.toml")
        .ok()
        .unwrap();
    assert!(out.starts_with("# my settings\napproval_policy = \"never\"\n\n"));
    assert!(out.ends_with("\n\n[model_providers.zai]\nname = \"Z.ai\"\n"));
    let b = active(&out, "/x/config.toml").ok().unwrap();
    assert_eq!(b.provider, "openrouter");
    assert_eq!(b.model, "x/y:free");
    // Writing the same selection again changes nothing.
    let again = set_active_text(&out, named(&c, "openrouter"), "x/y:free", "/x/config.toml")
        .ok()
        .unwrap();
    assert_eq!(again, out);
}

#[test]
fn a_config_without_the_block_is_refused() {
    let c = cfg();
    let text = "model_provider = \"zai\"\n";
    match set_active_text(text, named(&c, "zai"), "m", "/x/config.toml") {
        Err(SidecarError::NoManagedBlock { path }) => assert_eq!(path, "/x/config.toml"),
        _ => panic!("no block"),
    }
    match active(text, "/x/config.toml") {
        Err(e @ SidecarError::NoManagedBlock { .. }) => assert_eq!(
            e.message(),
            format!("/x/config.toml に管理ブロックがありません。次の2行で囲んだブロックを用意してください:\n  {BEGIN}\n  {END}")
        ),
        _ => panic!("no block"),
    }
}

#[test]
fn a_block_that_is_not_toml_is_refused() {
    let text = format!("{BEGIN}\nmodel_provider = \n{END}\n");
    match active(&text, "/x/config.toml") {
        Err(e @ SidecarError::BadManagedBlock) => {
            assert_eq!(e.message(), "管理ブロックを解釈できません")
        }
        _ => panic!("the block does not parse"),
    }
    // A block that leaves the settings out reads as empty.
    let empty = format!("{BEGIN}\n{END}\n");
    let a = active(&empty, "/x").ok().unwrap();
    assert_eq!(a.provider, "");
    assert_eq!(a.model, "");
}

#[test]
fn an_empty_or_missing_key_is_refused() {
    let c = cfg();
    let zai = named(&c, "zai");
    assert!(ensure_key(zai, Some(40)).is_ok());
    for len in [None, Some(0)] {
        match ensure_key(zai, len) {
            Err(e @ SidecarError::EmptyKey { .. }) => assert_eq!(
                e.message(),
                "Z.ai の API キーが空です: /home/u/.codex/zai.key\n  設定例: printf %s '<key>' > /home/u/.codex/zai.key"
            ),
            _ => panic!("no key"),
        }
    }
}

#[test]
fn launch_picks_provider_and_model() {
    let c = cfg();
    let act = active_of("zai", "glm-x");
    let (p, m) = launch_target(&c, &act, &None, &None).ok().unwrap();
    assert_eq!((p.name.as_str(), m.as_str()), ("zai", "glm-x"));
    let (p, m) = launch_target(&c, &act, &Some("openrouter".to_string()), &None).ok().unwrap();
    assert_eq!((p.name.as_str(), m.as_str()), ("openrouter", "nex-agi/nex-n2.5-pro:free"));
    let (p, m) = launch_target(&c, &act, &None, &Some("glm-y".to_string())).ok().unwrap();
    assert_eq!((p.name.as_str(), m.as_str()), ("zai", "glm-y"));
    let (p, m) = launch_target(&c, &active_of("zai", ""), &None, &None).ok().unwrap();
    assert_eq!((p.name.as_str(), m.as_str()), ("zai", "glm-5.3-flash"));
    assert!(launch_target(&c, &act, &Some("nope".to_string()), &None).is_err());
    assert!(launch_target(&c, &active_of("gone", "m"), &None, &None).is_err());
}

#[test]
fn a_running_sidecar_is_shown_or_left_alone() {
    let act = active_of("zai", "glm");
    assert!(matches!(launch_action(false, &act, "openrouter", "x"), LaunchAction::Start));
    assert!(matches!(launch_action(true, &act, "zai", "glm"), LaunchAction::Show));
    assert!(matches!(launch_action(true, &act, "zai", "glm-2"), LaunchAction::Refuse));
    assert!(matches!(launch_action(true, &act, "openrouter", "glm"), LaunchAction::Refuse));
}

#[test]
fn after_a_handoff_the_sidecar_runs_the_target_or_what_it_ran_before() {
    let c = cfg();
    let target = named(&c, "openrouter");
    let act = active_of("zai", "glm-x");
    let (p, m) = relaunch_target(&c, true, &act, target, "x/y");
    assert_eq!((p.name.as_str(), m.as_str()), ("openrouter", "x/y"));
    let (p, m) = relaunch_target(&c, false, &act, target, "x/y");
    assert_eq!((p.name.as_str(), m.as_str()), ("zai", "glm-x"));
    let (p, m) = relaunch_target(&c, false, &active_of("gone", "m"), target, "x/y");
    assert_eq!((p.name.as_str(), m.as_str()), ("openrouter", "x/y"));
}

#[test]
fn which_codex_runs_the_app_server() {
    let mut c = mac_cfg();
    assert_eq!(bundled_codex(&c), "/Applications/ChatGPT.app/Contents/Resources/codex");
    match codex_bin(&c, &Platform::MacOs, true) {
        CodexBin::Path(p) => assert_eq!(p, "/Applications/ChatGPT.app/Contents/Resources/codex"),
        CodexBin::PackageCopy => panic!("macOS runs a path"),
    }
    match codex_bin(&c, &Platform::MacOs, false) {
        CodexBin::Path(p) => assert_eq!(p, "codex"),
        CodexBin::PackageCopy => panic!("macOS runs a path"),
    }
    assert!(matches!(codex_bin(&c, &Platform::Windows, false), CodexBin::PackageCopy));
    match codex_bin(&c, &Platform::Other, true) {
        CodexBin::Path(p) => assert_eq!(p, "codex"),
        CodexBin::PackageCopy => panic!("a path"),
    }
    c.codex_bin = Some("/opt/codex".to_string());
    match codex_bin(&c, &Platform::Windows, false) {
        CodexBin::Path(p) => assert_eq!(p, "/opt/codex"),
        CodexBin::PackageCopy => panic!("the configured binary wins"),
    }
}

#[test]
fn open_starts_a_second_instance_with_its_own_homes() {
    let c = mac_cfg();
    let data = "/home/u/Library/Application Support/codex-switch/user-data";
    assert_eq!(
        open_args(&c),
        vec![
            "-n".to_string(),
            "--env".to_string(),
            "CODEX_HOME=/home/u/.codex-switch".to_string(),
            "--env".to_string(),
            format!("CODEX_ELECTRON_USER_DATA_PATH={data}"),
            "/Applications/ChatGPT.app".to_string(),
            "--args".to_string(),
            format!("--user-data-dir={data}"),
        ]
    );
}

#[test]
fn how_to_quit_per_platform() {
    assert_eq!(quit_verb(&Platform::Windows), "強制終了");
    assert_eq!(quit_verb(&Platform::MacOs), "終了");
    assert!(quit_howto(&Platform::MacOs).contains("⌘Q"));
    assert!(quit_howto(&Platform::Windows).contains("「Exit」"));
    assert_eq!(quit_howto(&Platform::Other), "アプリのメニューから終了する");
}

#[test]
fn any_model_name_reads_back_after_a_rewrite() {
    let c = cfg();
    let text = config_text(named(&c, "zai"), "glm-5.3-flash");
    for model in ["a\"b'c", "C:\\x\\y", "line\nbreak", "# comment-like", "tab\tand \u{0}"] {
        let out = set_active_text(&text, named(&c, "openrouter"), model, "/x").ok().unwrap();
        let a = active(&out, "/x").ok().unwrap();
        assert_eq!((a.provider.as_str(), a.model.as_str()), ("openrouter", model));
    }
}
