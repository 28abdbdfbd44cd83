use codex_switch::projects::{assign_in_state, AssignError};
use codex_switch::handoff::plan_lines;
use codex_switch::handoff::{default_message, plan_name, resolve, short_model, ResolveError};
use codex_switch::projects::{match_project_in, normalize, within, LocalProject};
use codex_switch::rollout::{
    chain_step, digest, forked_from, last_usage, relative, same_digest, usage_step, ChainStep,
    RolloutError, Usage, MAX_CHAIN,
};
use codex_switch::threads::{
    escape_like, first_line, first_lookup, is_uuid, newest_state_db, next_lookup, parse_u32,
    search_pattern, state_db_number, truncate, Lookup, Thread,
};
use codex_switch::config::{Config, FileConfig};

fn thread(id: &str, name: &str, preview: &str, title: &str) -> Thread {
    Thread {
        id: id.to_string(),
        name: name.to_string(),
        preview: preview.to_string(),
        title: title.to_string(),
        cwd: "/dev/app".to_string(),
        model: "gpt".to_string(),
        provider: "openai".to_string(),
        rollout: "/home/u/.codex/sessions/r.jsonl".to_string(),
        updated_ms: 0,
    }
}

fn chars(s: &str) -> Vec<char> {
    s.chars().collect()
}

/// Reads a `LIKE` pattern without wildcards back to the text it matches.
fn like_literal(p: &str) -> Option<String> {
    let mut out = String::new();
    let mut it = p.chars();
    while let Some(c) = it.next() {
        match c {
            '\\' => out.push(it.next()?),
            '%' | '_' => return None,
            c => out.push(c),
        }
    }
    Some(out)
}

#[test]
fn an_escaped_query_matches_itself_literally() {
    for s in ["50%_off\\", "plain", "", "\\\\%%__", "ログイン_画面"] {
        assert_eq!(like_literal(&escape_like(s)).as_deref(), Some(s));
    }
    assert_eq!(search_pattern("50%"), "%50\\%%");
}

#[test]
fn labels_use_the_first_non_blank_line() {
    assert_eq!(first_line("\n  \n  hello  \nworld"), Some(chars("hello")));
    assert_eq!(first_line(" \n\t\n"), None);
    assert_eq!(first_line(""), None);
    assert_eq!(truncate("abcdef", 3), "abc…");
    assert_eq!(truncate("abc", 3), "abc");
    assert_eq!(thread("id-1", "Fix login\nmore", "p", "t").label(), "Fix login");
    assert_eq!(thread("id-1", " ", "\n first line \nsecond", "t").label(), "first line");
    assert_eq!(thread("id-1", "", "", "title").label(), "title");
    assert_eq!(thread("id-1", "", " ", "\n").label(), "id-1");
    let long = "あ".repeat(70);
    assert_eq!(thread("id", &long, "", "").label(), format!("{}…", "あ".repeat(60)));
}

#[test]
fn uuids_accept_either_case() {
    assert!(is_uuid("0199AAAA-BBBB-7CCC-8DDD-EEEEFFFF0000"));
    assert!(!is_uuid("0199aaaa-bbbb-7ccc-8ddd-eeeeffff000g"));
    assert!(!is_uuid("0199aaaa-bbbb-7ccc-8ddd-eeeeffff00000"));
    assert!(!is_uuid("0199aaaa_bbbb-7ccc-8ddd-eeeeffff0000"));
}

#[test]
fn parses_u32_like_std() {
    for s in ["0", "+12", "4294967295", "007", "", "+", "-1", "4294967296", "1a", " 1"] {
        assert_eq!(parse_u32(&chars(s)), s.parse::<u32>().ok(), "{s:?}");
    }
}

#[test]
fn finds_the_newest_thread_database() {
    assert_eq!(state_db_number("state_5.sqlite"), Some(5));
    assert_eq!(state_db_number("state_.sqlite"), None);
    assert_eq!(state_db_number("state_5.sqlite-wal"), None);
    assert_eq!(state_db_number("logs_5.sqlite"), None);
    let names: Vec<String> = ["logs_9.sqlite", "state_3.sqlite", "state_12.sqlite", "state_7.sqlite", "state_12.sqlite"]
        .iter()
        .map(|s| s.to_string())
        .collect();
    assert_eq!(newest_state_db(&names), Some(2));
    assert_eq!(newest_state_db(&vec!["x".to_string()]), None);
}

#[test]
fn resolves_a_query_to_one_thread() {
    match resolve(vec![], "login") {
        Err(ResolveError::NotFound { query }) => assert_eq!(query, "login"),
        _ => panic!("nothing was found"),
    }
    match resolve(vec![thread("a", "n", "", "")], "login") {
        Ok(t) => assert_eq!(t.id, "a"),
        _ => panic!("one was found"),
    }
    match resolve(vec![thread("a", "", "", ""), thread("b", "", "", "")], "login") {
        Err(ResolveError::Ambiguous { found }) => {
            let ids: Vec<&str> = found.iter().map(|t| t.id.as_str()).collect();
            assert_eq!(ids, vec!["a", "b"]);
        }
        _ => panic!("two were found"),
    }
}

#[test]
fn names_and_first_message_of_a_handoff() {
    assert_eq!(short_model("a/b/c"), "c");
    assert_eq!(short_model("a/"), "");
    assert_eq!(short_model(""), "");
    let t = thread("a", "ログイン画面のバリデーションを修正", "", "");
    assert_eq!(
        plan_name(&t, "nex-agi/nex-n2.5-pro:free"),
        "ログイン画面のバリデーションを修正（nex-n2.5-pro:free）"
    );
    let c = Config::load(FileConfig::empty(), "/home/u", "/home/u/.local/share", false);
    let zai = c.provider("zai").ok().unwrap();
    assert_eq!(
        default_message(zai, "glm-5.3-flash"),
        "Z.ai（glm-5.3-flash）へ引き継ぎました。ここまでの状況と、次に着手すべきことを3行以内で整理してください。ファイルの変更やコマンドの実行はしないでください。"
    );
}

fn project(key: &str, id: Option<&str>, name: Option<&str>, roots: &[&str]) -> LocalProject {
    LocalProject {
        key: key.to_string(),
        id: id.map(str::to_string),
        name: name.map(str::to_string),
        root_paths: roots.iter().map(|r| r.to_string()).collect(),
    }
}

#[test]
fn project_paths_compare_by_whole_components() {
    assert_eq!(normalize("C:/Users/RM2C/Dev/", true), "c:\\users\\rm2c\\dev");
    assert_eq!(normalize("\\", true), "\\");
    assert_eq!(normalize("/a/b//", false), "/a/b");
    assert_eq!(normalize("/", false), "/");
    assert_eq!(normalize("/A/B", false), "/A/B");
    assert!(within(&chars("/a/b"), &chars("/a"), false));
    assert!(within(&chars("/a"), &chars("/a"), false));
    assert!(!within(&chars("/ab"), &chars("/a"), false));
    assert!(within(&chars("/a"), &chars("/"), false));
    assert!(within(&chars("c:\\x\\y"), &chars("c:\\x"), true));
    assert!(!within(&chars("c:/x/y"), &chars("c:/x"), true));
}

#[test]
fn a_project_without_id_or_name_uses_its_key() {
    let ps = vec![
        project("k1", None, None, &["/dev/app"]),
        project("k2", Some("id2"), None, &["/dev/app/sub", "/other"]),
    ];
    assert_eq!(
        match_project_in(&ps, "/dev/app/x", false),
        Some(("k1".to_string(), "k1".to_string()))
    );
    assert_eq!(
        match_project_in(&ps, "/dev/app/sub/y", false),
        Some(("id2".to_string(), "id2".to_string()))
    );
    // Equally deep roots: the first one wins.
    let tie = vec![
        project("a", None, Some("first"), &["/dev/app"]),
        project("b", None, Some("second"), &["/dev/app/"]),
    ];
    assert_eq!(
        match_project_in(&tie, "/dev/app", false).map(|(_, n)| n),
        Some("first".to_string())
    );
}

#[test]
fn digests_are_sha256() {
    let hex = |d: Vec<u8>| -> String { d.iter().map(|b| format!("{b:02x}")).collect() };
    assert_eq!(
        hex(digest(b"abc")),
        "ba7816bf8f01cfea414140de5dae2223b00361a396177a9cb410ff61f20015ad"
    );
    assert_eq!(
        hex(digest(b"")),
        "e3b0c44298fc1c149afbf4c8996fb92427ae41e4649b934ca495991b7852b855"
    );
    assert!(same_digest(b"same bytes", b"same bytes"));
    assert!(!same_digest(b"same bytes", b"same bytez"));
}

#[test]
fn reads_the_fork_parent_from_the_first_line() {
    let ok = |s: &str| match forked_from(s) {
        Ok(v) => v,
        Err(_) => panic!("{s} is JSON"),
    };
    assert_eq!(
        ok(r#"{"type":"session_meta","payload":{"id":"new","forked_from_id":"0199aaaa"}}"#),
        Some("0199aaaa".to_string())
    );
    assert_eq!(ok(r#"{"type":"session_meta","payload":{"id":"new"}}"#), None);
    assert_eq!(ok(r#"{"type":"response_item","payload":{"forked_from_id":"x"}}"#), None);
    assert_eq!(ok(r#"{"type":"session_meta","payload":{"forked_from_id":7}}"#), None);
    assert!(matches!(forked_from("not json"), Err(RolloutError::BadFirstLine)));
}

#[test]
fn follows_a_chain_of_forks_up_to_a_limit() {
    assert!(matches!(chain_step(1, None), ChainStep::Done));
    match chain_step(MAX_CHAIN, Some("p".to_string())) {
        ChainStep::Parent(id) => assert_eq!(id, "p"),
        _ => panic!("within the limit"),
    }
    assert!(matches!(chain_step(MAX_CHAIN + 1, Some("p".to_string())), ChainStep::TooDeep));
    assert_eq!(MAX_CHAIN, 64);
}

#[test]
fn the_last_token_count_line_wins() {
    let count = |n: i64| {
        format!(
            r#"{{"type":"event_msg","payload":{{"type":"token_count","info":{{"last_token_usage":{{"input_tokens":{n}}}}}}}}}"#
        )
    };
    let lines = [
        r#"{"type":"session_meta","payload":{}}"#.to_string(),
        count(1200),
        r#"{"type":"response_item","payload":{"text":"no count here"}}"#.to_string(),
        count(151898),
        r#"{"type":"event_msg","payload":{"type":"token_count","info":null}}"#.to_string(),
        r#"mentions "token_count" but is not JSON"#.to_string(),
    ];
    let mut found: Option<Usage> = None;
    for l in &lines {
        found = usage_step(found, l);
    }
    assert_eq!(found.map(|u| u.input_tokens), Some(151898));
    assert!(usage_step(None, "plain line").is_none());

    let per_path = vec![None, Some(Usage { input_tokens: 3 }), Some(Usage { input_tokens: 4 })];
    assert_eq!(last_usage(&per_path).map(|u| u.input_tokens), Some(3));
    assert!(last_usage(&vec![None, None]).is_none());
    assert!(last_usage(&vec![]).is_none());
}

#[test]
fn relative_paths_of_rollouts() {
    assert_eq!(
        relative("/home/u/.codex/sessions/2025/a.jsonl", "/home/u/.codex/", false),
        Some("sessions/2025/a.jsonl".to_string())
    );
    assert_eq!(relative("/home/u/.codexx/a.jsonl", "/home/u/.codex", false), None);
    assert_eq!(
        relative("C:\\Users\\A\\.codex\\s\\a.jsonl", "c:\\users\\a\\.codex\\", true),
        Some("s\\a.jsonl".to_string())
    );
}

#[test]
fn searches_names_first_then_opening_messages() {
    let id = "0199aaaa-bbbb-7ccc-8ddd-eeeeffff0000";
    match first_lookup(id) {
        Lookup::Id(x) => assert_eq!(x, id),
        _ => panic!("a UUID is looked up by id"),
    }
    assert!(next_lookup(&Lookup::Id(id.to_string()), 0).is_none());
    let names = first_lookup("50%");
    match &names {
        Lookup::Names(p) => assert_eq!(p, "%50\\%%"),
        _ => panic!("text is looked up by name"),
    }
    assert!(next_lookup(&names, 2).is_none());
    match next_lookup(&names, 0) {
        Some(Lookup::Openings(p)) => assert_eq!(p, "%50\\%%"),
        _ => panic!("no name matched: widen"),
    }
    assert!(next_lookup(&Lookup::Openings("%x%".to_string()), 0).is_none());
}

#[test]
fn assigns_a_thread_in_the_state_file() {
    let state = r#"{"zeta":1,"local-projects":{"p1":{"id":"id1","name":"shop","rootPaths":["/dev/shop",5]},"p2":{"rootPaths":["/dev/shop/ledger"]}},"thread-project-assignments":{"old":{"projectKind":"local","projectId":"id1"}}}"#;
    let (new, name) = assign_in_state(state, "t1", "/dev/shop/x", false).ok().unwrap().unwrap();
    assert_eq!(name, "shop");
    assert!(!new.contains('\n'));
    let v: serde_json::Value = serde_json::from_str(&new).unwrap();
    assert_eq!(v["thread-project-assignments"]["t1"]["projectKind"], "local");
    assert_eq!(v["thread-project-assignments"]["t1"]["projectId"], "id1");
    assert_eq!(v["thread-project-assignments"]["old"]["projectId"], "id1");
    assert_eq!(v["zeta"], 1);
    // The key is the id of a project without one.
    let (new, name) = assign_in_state(state, "t2", "/dev/shop/ledger/src", false).ok().unwrap().unwrap();
    assert_eq!(name, "p2");
    let v: serde_json::Value = serde_json::from_str(&new).unwrap();
    assert_eq!(v["thread-project-assignments"]["t2"]["projectId"], "p2");
    // A missing assignments table is created.
    let bare = r#"{"local-projects":{"p1":{"rootPaths":["/a"]}}}"#;
    let (new, _) = assign_in_state(bare, "t", "/a", false).ok().unwrap().unwrap();
    assert_eq!(
        new,
        r#"{"local-projects":{"p1":{"rootPaths":["/a"]}},"thread-project-assignments":{"t":{"projectId":"p1","projectKind":"local"}}}"#
    );
    assert!(matches!(assign_in_state(state, "t", "/elsewhere", false), Ok(None)));
    assert!(matches!(assign_in_state("{", "t", "/a", false), Err(AssignError::Unparsable)));
    let odd = r#"{"local-projects":{"p1":{"rootPaths":["/a"]}},"thread-project-assignments":3}"#;
    assert!(matches!(assign_in_state(odd, "t", "/a", false), Err(AssignError::Unexpected)));
}

#[test]
fn the_plan_shown_before_a_handoff() {
    let mut t = thread("0199aaaa-bbbb-7ccc-8ddd-eeeeffff0000", "ログイン画面のバリデーションを修正", "", "");
    t.model = "gpt-6-astra".to_string();
    let lines = plan_lines(
        &t,
        "~/dev/example-app",
        "~/.codex-switch",
        "zai",
        "glm-5.3-flash",
        "ログイン画面のバリデーションを修正（glm-5.3-flash）",
        1,
        "138.4",
        "一行目\r\n二行目\n",
        Some(151_898),
        false,
        false,
    );
    assert_eq!(
        lines,
        vec![
            "引き継ぎ元   : ログイン画面のバリデーションを修正",
            "               gpt-6-astra / openai / ~/dev/example-app",
            "               id 0199aaaa-bbbb-7ccc-8ddd-eeeeffff0000",
            "引き継ぎ先   : 第2インスタンス（~/.codex-switch）/ zai / glm-5.3-flash",
            "新しい名前   : ログイン画面のバリデーションを修正（glm-5.3-flash）",
            "コピー       : 会話ファイル 1 件（138.4 MB）",
            "最初のメッセージ（読み取り専用で実行）:",
            "    一行目",
            "    二行目",
            "送信する量   : 約 151,898 トークン（元の会話の直近の入力量）",
            "第2インスタンス: 停止中 → 完了後に zai で起動します",
        ]
    );
    let other = plan_lines(&t, "c", "s", "zai", "m", "n", 3, "0.0", "", None, true, false);
    assert_eq!(other[5], "コピー       : 会話ファイル 3 件（0.0 MB）※フォーク元を含む");
    assert_eq!(other[7], "送信する量   : 不明");
    assert_eq!(other[8], "第2インスタンス: 起動中 → 終了を待ち、完了後に zai で起動します");
    let kept = plan_lines(&t, "c", "s", "zai", "m", "n", 1, "0.0", "a\n\nb", None, true, true);
    assert_eq!(&kept[7..10], &["    a", "    ", "    b"]);
    assert_eq!(kept[11], "第2インスタンス: 起動中（終了・再起動しません）");
}

#[test]
fn relative_paths_compare_components_like_strip_prefix() {
    assert_eq!(relative("/home//u/.codex/a", "/home/u/.codex", false), Some("a".to_string()));
    assert_eq!(relative("/home/u/.codex/./a", "/home/u/.codex", false), Some("a".to_string()));
    assert_eq!(relative("/home/u/.codex/s//a/", "/home/u/./.codex", false), Some("s/a".to_string()));
    assert_eq!(relative("/home/u/.codex", "/home/u/.codex", false), Some(String::new()));
    assert_eq!(relative("home/u/.codex/a", "/home/u/.codex", false), None);
    assert_eq!(relative("./a/b", "a", false), None);
    assert_eq!(relative("./a/b", "./a", false), Some("b".to_string()));
}
