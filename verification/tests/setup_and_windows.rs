use codex_switch::catalog::{widen_catalog, CatalogError};
use codex_switch::appserver::{
    completed, request_step, turn_step, RequestStep, RpcMessage, TurnOutcome, TurnStep,
};
use codex_switch::catalog::{
    bundled, default_reasoning_level, ensure_plan, needs_fetch, reasoning_levels, EnsurePlan,
    Outcome, OPENROUTER,
};
use codex_switch::config::{Config, FileConfig, Provider};
use codex_switch::setup::{
    add_managed_block, catalog_status, comment_out_managed, complete_config, default_provider,
    defer_fetch, key_reader, new_config, provider_tables, tables_for, SetupError,
};
use codex_switch::sidecar::{active, has_managed_block, managed_block};
use codex_switch::ui::{
    is_yes, key_hint, key_path, pad_right, provider_line, running_state, thousands, tilde,
};
use codex_switch::windows::{
    base64, codex_copy_name, encode_command, is_stale_copy, package_script, ps_quote,
    utf16le_bytes,
};

fn cfg() -> Config {
    Config::load(FileConfig::empty(), "/home/u", "/home/u/.local/share", false)
}

fn named<'a>(c: &'a Config, name: &str) -> &'a Provider {
    c.provider(name).ok().unwrap()
}

// ----------------------------------------------------------------------------
// Terminal text
// ----------------------------------------------------------------------------

#[test]
fn removing_the_commas_gives_the_plain_number() {
    for n in [0i64, 7, 999, 1000, 165_328, -1_234_567, i64::MAX, i64::MIN] {
        assert_eq!(thousands(n).replace(',', ""), n.to_string());
    }
    assert_eq!(thousands(i64::MIN), "-9,223,372,036,854,775,808");
    assert_eq!(thousands(0), "0");
}

#[test]
fn paths_under_home_are_shown_with_a_tilde() {
    assert_eq!(tilde("/home/u/.codex/a", "/home/u", '/'), "~/.codex/a");
    assert_eq!(tilde("/home/u", "/home/u", '/'), "~");
    assert_eq!(tilde("/home/uu/x", "/home/u", '/'), "/home/uu/x");
    assert_eq!(tilde("\\\\?\\C:\\Users\\a\\x", "C:\\Users\\a", '\\'), "~\\x");
    assert_eq!(key_path("/home/u/.codex/zai.key", "/home/u", false), "~/.codex/zai.key");
    assert_eq!(
        key_path("\\\\?\\C:\\Users\\a\\.codex\\zai.key", "C:\\Users\\a", true),
        "C:\\Users\\a\\.codex\\zai.key"
    );
    assert_eq!(
        key_hint("/home/u/.codex/zai.key", "/home/u", false),
        "printf %s '<キー>' > ~/.codex/zai.key"
    );
    assert_eq!(
        key_hint("C:\\Users\\a\\.codex\\zai.key", "C:\\Users\\a", true),
        "Set-Content -NoNewline -Path 'C:\\Users\\a\\.codex\\zai.key' -Value '<キー>'   （PowerShell）"
    );
}

#[test]
fn yes_means_y_or_yes_in_any_case() {
    for a in ["y", "Y", " yes \n", "YeS"] {
        assert!(is_yes(a), "{a:?}");
    }
    for a in ["", "n", "no", "ye", "yess", "y y", "はい"] {
        assert!(!is_yes(a), "{a:?}");
    }
}

#[test]
fn status_lines() {
    assert_eq!(pad_right("ab", 4), "ab  ");
    assert_eq!(pad_right("abcdef", 3), "abcdef");
    assert_eq!(pad_right("あ", 2), "あ ");
    assert_eq!(running_state(&vec![]), "停止中");
    assert_eq!(running_state(&vec![12]), "起動中（PID 12）");
    assert_eq!(running_state(&vec![12, 345]), "起動中（PID 12, 345）");
    assert_eq!(
        provider_line("zai", "glm-5.3-flash", true, false),
        format!("  {:<11} {:<30} キー ✓  カタログ ✗", "zai", "glm-5.3-flash")
    );
}

// ----------------------------------------------------------------------------
// Windows scripts
// ----------------------------------------------------------------------------

#[test]
fn base64_of_joined_blocks_is_the_joined_base64() {
    let a = b"foo".to_vec();
    let b = b"barbaz!".to_vec();
    let mut ab = a.clone();
    ab.extend_from_slice(&b);
    assert_eq!(base64(&ab), format!("{}{}", base64(&a), base64(&b)));
    assert_eq!(base64(&vec![0xff, 0xfe]), "//4=");
    assert_eq!(base64(&vec![0, 0, 0]), "AAAA");
    for n in 0..10usize {
        assert_eq!(base64(&vec![7u8; n]).len(), n.div_ceil(3) * 4);
    }
}

#[test]
fn utf16_little_endian() {
    assert_eq!(utf16le_bytes("a日"), vec![0x61, 0x00, 0xE5, 0x65]);
    // Outside the basic plane a character takes a surrogate pair.
    assert_eq!(utf16le_bytes("😀"), vec![0x3D, 0xD8, 0x00, 0xDE]);
    assert_eq!(encode_command(""), "");
}

/// Reads a PowerShell single-quoted literal back.
fn ps_unquote(q: &str) -> String {
    q[1..q.len() - 1].replace("''", "'")
}

#[test]
fn a_quoted_literal_reads_back_as_written() {
    for s in ["", "plain", "O'Neil", "''", "a'b'c'", "C:\\Program Files\\x"] {
        let q = ps_quote(s);
        assert!(q.starts_with('\'') && q.ends_with('\''));
        assert_eq!(ps_unquote(&q), s);
    }
}

#[test]
fn package_scripts_and_copies() {
    let s = package_script("OpenAI.Codex");
    assert!(s.starts_with("$p = Get-AppxPackage -Name 'OpenAI.Codex' | Sort-Object Version -Descending | Select-Object -First 1\nif (-not $p) { exit 3 }\n"));
    assert!(s.ends_with("| ConvertTo-Json -Compress"));
    assert_eq!(codex_copy_name("26.1.2"), "codex-26.1.2.exe");
    assert!(is_stale_copy("codex-26.1.1.exe", "codex-26.1.2.exe"));
    assert!(!is_stale_copy("codex-26.1.2.exe", "codex-26.1.2.exe"));
    assert!(!is_stale_copy("other.exe", "codex-26.1.2.exe"));
    assert!(!is_stale_copy("codex-26.1.1.exe.tmp", "codex-26.1.2.exe"));
}

// ----------------------------------------------------------------------------
// Catalogs
// ----------------------------------------------------------------------------

#[test]
fn how_a_missing_catalog_is_made() {
    let c = cfg();
    let zai = named(&c, "zai");
    let or = named(&c, "openrouter");
    assert!(needs_fetch(zai, false));
    assert!(!needs_fetch(zai, true));
    assert!(!needs_fetch(or, false));
    assert!(bundled("zai").is_none());
    assert_eq!(bundled("openrouter"), Some(OPENROUTER));
    assert!(matches!(ensure_plan(zai, true), EnsurePlan::Present));
    assert!(matches!(ensure_plan(or, false), EnsurePlan::WriteBundled(t) if t == OPENROUTER));
    match ensure_plan(zai, false) {
        EnsurePlan::Fetch { url, key_file } => {
            assert_eq!(url, "https://api.z.ai/api/v1/models");
            assert_eq!(key_file, "/home/u/.codex/zai.key");
        }
        _ => panic!("Z.ai publishes its catalog"),
    }
    let mut custom = zai.clone();
    custom.name = "mine".to_string();
    custom.label = "Mine".to_string();
    custom.catalog_url = None;
    match ensure_plan(&custom, false) {
        EnsurePlan::Missing { label, catalog } => {
            assert_eq!(label, "Mine");
            assert_eq!(catalog, zai.catalog);
        }
        _ => panic!("no way to get one"),
    }
    let levels: Vec<&str> = reasoning_levels().iter().map(|l| l.0).collect();
    assert_eq!(levels, vec!["low", "medium", "high", "xhigh", "max"]);
    assert_eq!(reasoning_levels()[3].1, "Extended reasoning");
    assert_eq!(default_reasoning_level(), "high");
}

// ----------------------------------------------------------------------------
// Setup
// ----------------------------------------------------------------------------

#[test]
fn the_key_is_read_by_a_command() {
    assert_eq!(key_reader("/k/z.key", false, None), ("/bin/cat".to_string(), vec!["/k/z.key".to_string()]));
    assert_eq!(
        key_reader("C:\\k\\z.key", true, None),
        (
            "C:\\Windows\\System32\\cmd.exe".to_string(),
            vec!["/c".to_string(), "type".to_string(), "C:\\k\\z.key".to_string()]
        )
    );
    assert_eq!(key_reader("k", true, Some("D:\\Win".to_string())).0, "D:\\Win\\System32\\cmd.exe");
}

#[test]
fn provider_tables_are_exact() {
    let c = cfg();
    let zai = named(&c, "zai");
    assert_eq!(
        tables_for(zai, false, None),
        Some(
            "[model_providers.zai]\nname = \"Z.ai\"\nbase_url = \"https://api.z.ai/api/v1\"\nwire_api = \"responses\"\nrequires_openai_auth = false\n\n[model_providers.zai.auth]\ncommand = \"/bin/cat\"\nargs = [\"/home/u/.codex/zai.key\"]\n"
                .to_string()
        )
    );
    let two = provider_tables(zai, "u", "c", &vec!["a".to_string(), "b".to_string()]);
    assert!(two.ends_with("command = \"c\"\nargs = [\"a\", \"b\"]\n"));
    let mut custom = zai.clone();
    custom.base_url = None;
    assert_eq!(tables_for(&custom, false, None), None);
}

#[test]
fn a_new_config_selects_zai_and_reads_back() {
    let c = cfg();
    assert_eq!(default_provider(&c).name, "zai");
    let text = new_config(&c, false, None);
    assert!(text.starts_with("# Codex アプリの第2インスタンス（codexSwitch）の設定。\n"));
    let a = active(&text, "config.toml").ok().unwrap();
    assert_eq!((a.provider.as_str(), a.model.as_str()), ("zai", "glm-5.3-flash"));
    // Without zai, the first provider is the default.
    let mut only = cfg();
    only.providers.retain(|p| p.name != "zai");
    assert_eq!(default_provider(&only).name, "openrouter");
}

#[test]
fn commenting_out_touches_only_top_level_managed_keys() {
    let text = "model = \"a\"\n  model_provider=\"z\"\nmodel_providerx = 1\nfoo = 1\n[t]\nmodel = \"b\"\n";
    let out = comment_out_managed(text);
    assert_eq!(
        out,
        "# (codexSwitch init) model = \"a\"\n# (codexSwitch init)   model_provider=\"z\"\nmodel_providerx = 1\nfoo = 1\n[t]\nmodel = \"b\"\n"
    );
    // Taking the marks off gives the text back.
    let back: String = out
        .split_inclusive('\n')
        .map(|l| l.strip_prefix("# (codexSwitch init) ").unwrap_or(l))
        .collect();
    assert_eq!(back, text);
    assert_eq!(comment_out_managed(""), "");
    assert_eq!(comment_out_managed("model = 1"), "# (codexSwitch init) model = 1");
}

#[test]
fn an_unknown_hand_written_provider_falls_back_to_the_default() {
    let c = cfg();
    let hand = "model_provider = \"acme\"\nmodel = \"m\"\n";
    let out = add_managed_block(hand, &c).ok().unwrap();
    assert!(out.starts_with(&managed_block(named(&c, "zai"), "glm-5.3-flash")));
    assert!(out.ends_with("\n\n# (codexSwitch init) model_provider = \"acme\"\n# (codexSwitch init) model = \"m\"\n"));
    assert!(matches!(add_managed_block("[[broken", &c), Err(SetupError::Unparsable)));
}

#[test]
fn completing_a_config_adds_what_is_missing_only() {
    let c = cfg();
    let fresh = new_config(&c, false, None);
    let done = complete_config(&fresh, &c, false, None).ok().unwrap();
    assert_eq!(done.text, fresh);
    assert!(done.changes.is_empty());

    let block_only = managed_block(named(&c, "zai"), "glm-5.3-flash");
    let done = complete_config(&block_only, &c, false, None).ok().unwrap();
    assert_eq!(
        done.changes,
        vec![
            "[model_providers.openrouter] を追加".to_string(),
            "[model_providers.zai] を追加".to_string()
        ]
    );
    assert!(done.text.starts_with(&format!("{block_only}\n\n[model_providers.openrouter]\n")));
    let t: toml::Table = toml::from_str(&done.text).unwrap();
    assert_eq!(t["model_providers"].as_table().unwrap().len(), 2);

    let hand = "model = \"x\"\n";
    let done = complete_config(hand, &c, false, None).ok().unwrap();
    assert_eq!(done.changes[0], "管理ブロックを追加");
    assert_eq!(done.changes.len(), 3);
    assert!(has_managed_block(&done.text));

    let broken = format!("{block_only}\n[[broken\n");
    assert!(matches!(complete_config(&broken, &c, false, None), Err(SetupError::Unparsable)));
}

#[test]
fn completing_twice_changes_nothing_the_second_time() {
    let c = cfg();
    for start in ["model = \"x\"\n", "", "[model_providers.zai]\nname = \"Z\"\n"] {
        let first = complete_config(start, &c, false, None).ok().unwrap();
        let second = complete_config(&first.text, &c, false, None).ok().unwrap();
        assert_eq!(second.text, first.text);
        assert!(second.changes.is_empty());
    }
}

#[test]
fn catalog_lines_of_setup() {
    assert!(defer_fetch(true, false));
    assert!(!defer_fetch(true, true));
    assert!(!defer_fetch(false, false));
    let line = |d: bool, r: Result<Outcome, String>| catalog_status(d, &r, "~/c.json");
    assert_eq!(line(true, Ok(Outcome::Present)), "キーを入れたあと、最初の起動で取得します");
    assert_eq!(line(false, Ok(Outcome::Present)), "あり（~/c.json）");
    assert_eq!(line(false, Ok(Outcome::Bundled)), "作成しました（~/c.json）");
    assert_eq!(line(false, Ok(Outcome::Fetched)), "取得しました（~/c.json）");
    assert_eq!(
        line(false, Err("boom".to_string())),
        "取得できませんでした。最初の起動でもう一度取得します（boom）"
    );
}

// ----------------------------------------------------------------------------
// The app-server client's decisions
// ----------------------------------------------------------------------------

fn msg() -> RpcMessage {
    RpcMessage {
        has_id: false,
        id: None,
        method: None,
        error: None,
        thread_id: None,
        item_type: None,
        item_text: None,
        error_message: None,
        turn_status: None,
        turn_error: None,
    }
}

fn s(x: &str) -> Option<String> {
    Some(x.to_string())
}

#[test]
fn sorts_messages_while_waiting_for_a_response() {
    let mut server_request = msg();
    server_request.has_id = true;
    server_request.id = Some(5);
    server_request.method = s("item/commandExecution/requestApproval");
    assert!(matches!(request_step(&server_request, 5), RequestStep::AnswerServer));

    let mut reply = msg();
    reply.has_id = true;
    reply.id = Some(3);
    assert!(matches!(request_step(&reply, 3), RequestStep::Reply));
    assert!(matches!(request_step(&reply, 4), RequestStep::Backlog));

    reply.error = s("bad params");
    match request_step(&reply, 3) {
        RequestStep::Failed(t) => assert_eq!(t, "bad params"),
        _ => panic!("an error response"),
    }

    let mut note = msg();
    note.method = s("turn/started");
    assert!(matches!(request_step(&note, 3), RequestStep::Backlog));
}

#[test]
fn collects_a_turn_until_it_completes() {
    let mut out = TurnOutcome::new();
    let on = |method: &str, thread: &str| {
        let mut m = msg();
        m.method = s(method);
        m.thread_id = s(thread);
        m
    };

    let mut item = on("item/completed", "t1");
    item.item_type = s("agentMessage");
    item.item_text = s("first");
    assert!(matches!(turn_step(&mut out, &item, "t1"), TurnStep::Continue));
    item.item_text = s("last");
    turn_step(&mut out, &item, "t1");
    assert_eq!(out.reply, "last");

    // Another thread's message changes nothing.
    let mut other = on("item/completed", "t2");
    other.item_type = s("agentMessage");
    other.item_text = s("other");
    turn_step(&mut out, &other, "t1");
    assert_eq!(out.reply, "last");

    // Not an agent message.
    let mut reasoning = on("item/completed", "t1");
    reasoning.item_type = s("reasoning");
    reasoning.item_text = s("thinking");
    turn_step(&mut out, &reasoning, "t1");
    assert_eq!(out.reply, "last");

    let mut err = on("error", "t1");
    err.error_message = s("rate limited, retrying");
    turn_step(&mut out, &err, "t1");
    assert_eq!(out.errors, vec!["rate limited, retrying".to_string()]);

    let mut ask = on("item/fileChange/requestApproval", "t1");
    ask.has_id = true;
    ask.id = Some(9);
    assert!(matches!(turn_step(&mut out, &ask, "t1"), TurnStep::AnswerServer));

    assert!(!completed(&out));
    let mut done = on("turn/completed", "t1");
    done.turn_status = s("completed");
    assert!(matches!(turn_step(&mut out, &done, "t1"), TurnStep::Done));
    assert_eq!(out.status, "completed");
    assert!(out.error.is_none());
    assert!(completed(&out));
    assert_eq!(out.reply, "last");
    assert_eq!(out.errors.len(), 1);
}

#[test]
fn a_turn_without_status_is_unknown() {
    let mut out = TurnOutcome::new();
    let mut done = msg();
    done.method = s("turn/completed");
    done.thread_id = s("t");
    done.turn_error = s("model not found");
    assert!(matches!(turn_step(&mut out, &done, "t"), TurnStep::Done));
    assert_eq!(out.status, "unknown");
    assert_eq!(out.error.as_deref(), Some("model not found"));
    assert!(!completed(&out));
}

#[test]
fn widens_every_model() {
    let raw = r#"{"models": [
        {"slug": "a", "supported_reasoning_levels": [{"effort": "low"}], "default_reasoning_level": "max"},
        {"slug": "b", "supported_reasoning_levels": []}
    ]}"#;
    let text = widen_catalog(raw.as_bytes()).ok().unwrap();
    let v: serde_json::Value = serde_json::from_str(&text).unwrap();
    for m in v["models"].as_array().unwrap() {
        assert_eq!(m["supported_reasoning_levels"].as_array().unwrap().len(), 5);
        assert_eq!(m["default_reasoning_level"], "high");
    }
    assert_eq!(v["models"][0]["slug"], "a");
    assert_eq!(v["models"][1]["supported_reasoning_levels"][4]["effort"], "max");
    assert_eq!(
        v["models"][0]["supported_reasoning_levels"][3]["description"],
        "Extended reasoning"
    );
    // Pretty-printed.
    assert!(text.contains("\n  "));
}

#[test]
fn widening_keeps_each_model_and_orders_the_levels() {
    let raw = br#"{"version": 3, "models": [{"slug": "a", "x": 1}, null, {"slug": "b"}]}"#;
    let text = widen_catalog(raw).ok().unwrap();
    let v: serde_json::Value = serde_json::from_str(&text).unwrap();
    assert_eq!(v["version"], 3);
    let models = v["models"].as_array().unwrap();
    assert_eq!(models.len(), 3);
    assert_eq!(models[0]["slug"], "a");
    assert_eq!(models[0]["x"], 1);
    assert_eq!(models[2]["slug"], "b");
    for m in models {
        let efforts: Vec<&str> = m["supported_reasoning_levels"]
            .as_array()
            .unwrap()
            .iter()
            .map(|l| l["effort"].as_str().unwrap())
            .collect();
        assert_eq!(efforts, vec!["low", "medium", "high", "xhigh", "max"]);
        assert_eq!(m["default_reasoning_level"], "high");
    }
}

#[test]
fn a_fetched_catalog_must_have_models() {
    assert!(matches!(widen_catalog(b"not json"), Err(CatalogError::Unparsable)));
    assert!(matches!(widen_catalog(b"{\"data\": []}"), Err(CatalogError::NoModels)));
    assert!(matches!(widen_catalog(b"{\"models\": {}}"), Err(CatalogError::NoModels)));
    assert!(matches!(widen_catalog(b"{\"models\": [1]}"), Err(CatalogError::NoModels)));
    assert!(widen_catalog(b"{\"models\": []}").is_ok());
}

#[test]
fn tilde_ignores_doubled_separators_and_dots() {
    assert_eq!(tilde("/home//u/./x", "/home/u", '/'), "~/x");
    assert_eq!(tilde("/home/u/", "/home/u", '/'), "~");
    assert_eq!(tilde("home/u/x", "/home/u", '/'), "home/u/x");
}

fn b64_decode(s: &str) -> Vec<u8> {
    let val = |c: u8| -> u32 {
        match c {
            b'A'..=b'Z' => (c - b'A') as u32,
            b'a'..=b'z' => (c - b'a') as u32 + 26,
            b'0'..=b'9' => (c - b'0') as u32 + 52,
            b'+' => 62,
            _ => 63,
        }
    };
    let mut out = Vec::new();
    for g in s.as_bytes().chunks(4) {
        let n = (val(g[0]) << 18) | (val(g[1]) << 12) | (if g[2] == b'=' { 0 } else { val(g[2]) << 6 }) | (if g[3] == b'=' { 0 } else { val(g[3]) });
        out.push((n >> 16) as u8);
        if g[2] != b'=' {
            out.push((n >> 8) as u8);
        }
        if g[3] != b'=' {
            out.push(n as u8);
        }
    }
    out
}

#[test]
fn base64_uses_the_alphabet_pads_and_decodes_back() {
    for n in 0..12usize {
        let bytes: Vec<u8> = (0..n).map(|i| (i * 97 + 250) as u8).collect();
        let r = base64(&bytes);
        let pad = (3 - n % 3) % 3;
        assert_eq!(r.len(), n.div_ceil(3) * 4);
        assert!(r.ends_with(&"=".repeat(pad)));
        assert!(r[..r.len() - pad].chars().all(|c| c.is_ascii_alphanumeric() || c == '+' || c == '/'));
        assert_eq!(b64_decode(&r), bytes);
    }
}

#[test]
fn a_quoted_literal_doubles_each_apostrophe() {
    for s in ["", "a'b", "''", "x"] {
        let quotes = s.matches('\'').count();
        assert_eq!(ps_quote(s).chars().count(), s.chars().count() + 2 + quotes);
    }
}
