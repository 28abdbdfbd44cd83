//! Setup: the sidecar's config.toml written from scratch, or completed when
//! it exists, so that only the API keys are left to the user. What exists is
//! kept and what is missing is added; files are read, backed up and written
//! outside this library.

use vstd::prelude::*;
use crate::config::{Config, Provider, sorted_by_name, lookup};
use crate::sidecar::{
    managed_block, managed_block_spec, toml_str, toml_string_literal, toml_get_str,
    toml_top_level_str, has_block, has_managed_block, lemma_block_is_found,
    lemma_block_kept_by_appending, block_body_spec,
};
use crate::text::{
    chars_of, string_from, string_from_range, push_str, push_chars, push_char, trim, trim_start,
    trim_chars, is_ws, is_space_char, has_char, chars_eq, opt_view,
};
use crate::config::joined;

verus! {

/// Whether `p` is among the providers `ps`.
pub open spec fn listed(ps: Seq<Provider>, p: Provider) -> bool {
    exists|i: int| 0 <= i < ps.len() && ps[i] == p
}

/// The provider a new config.toml selects: `zai`, else the first one.
pub fn default_provider(cfg: &Config) -> (r: &Provider)
    requires
        cfg.providers@.len() > 0,
        sorted_by_name(cfg.providers@),
    ensures
        match lookup(cfg.providers@, "zai"@) {
            Some(p) => *r == p,
            None => *r == cfg.providers@[0],
        },
{
    match cfg.provider("zai") {
        Ok(p) => p,
        Err(_) => &cfg.providers[0],
    }
}

/// The command that prints a key file, and its arguments: `cat` on Unix,
/// `cmd /c type` on Windows (`system_root` is `%SystemRoot%`).
pub open spec fn key_reader_spec(key: Seq<char>, windows: bool, system_root: Option<Seq<char>>) -> (Seq<char>, Seq<Seq<char>>) {
    if windows {
        let root = match system_root {
            Some(r) => r,
            None => "C:\\Windows"@,
        };
        (root + "\\System32\\cmd.exe"@, seq!["/c"@, "type"@, key])
    } else {
        ("/bin/cat"@, seq![key])
    }
}

/// The command that prints a key file, and its arguments.
pub fn key_reader(key: &str, windows: bool, system_root: Option<String>) -> (r: (String, Vec<String>))
    ensures
        (r.0@, r.1@.map_values(|a: String| a@)) == key_reader_spec(
            key@,
            windows,
            opt_view(system_root),
        ),
{
    let key_s = string_from(&chars_of(key));
    if windows {
        let mut cmd = match system_root {
            Some(r) => r,
            None => string_from(&chars_of("C:\\Windows")),
        };
        push_str(&mut cmd, "\\System32\\cmd.exe");
        let mut args: Vec<String> = Vec::new();
        args.push(string_from(&chars_of("/c")));
        args.push(string_from(&chars_of("type")));
        args.push(key_s);
        assert(args@.map_values(|a: String| a@) =~= seq!["/c"@, "type"@, key@]);
        (cmd, args)
    } else {
        let mut args: Vec<String> = Vec::new();
        args.push(key_s);
        assert(args@.map_values(|a: String| a@) =~= seq![key@]);
        (string_from(&chars_of("/bin/cat")), args)
    }
}

/// `[model_providers.<name>]` and its auth table. The key is read from its
/// file by a command, so no secret is written into config.toml.
pub open spec fn provider_tables_spec(p: Provider, base_url: Seq<char>, command: Seq<char>, args: Seq<Seq<char>>) -> Seq<char> {
    "[model_providers."@ + p.name@ + "]\nname = "@ + toml_string_literal(p.label@)
        + "\nbase_url = "@ + toml_string_literal(base_url)
        + "\nwire_api = \"responses\"\nrequires_openai_auth = false\n\n[model_providers."@ + p.name@
        + ".auth]\ncommand = "@ + toml_string_literal(command) + "\nargs = ["@ + joined(
        args.map_values(|a: Seq<char>| toml_string_literal(a)),
        ", "@,
    ) + "]\n"@
}

/// The provider's tables, reading its key with `command` and `args`.
pub fn provider_tables(p: &Provider, base_url: &str, command: &str, args: &Vec<String>) -> (r: String)
    ensures
        r@ == provider_tables_spec(*p, base_url@, command@, args@.map_values(|a: String| a@)),
{
    let mut quoted: Vec<String> = Vec::new();
    let mut i: usize = 0;
    while i < args.len()
        invariant
            i <= args.len(),
            quoted@.map_values(|a: String| a@) == args@.take(i as int).map_values(
                |a: String| toml_string_literal(a@),
            ),
        decreases args.len() - i,
    {
        let q = toml_str(args[i].as_str());
        let ghost prev = quoted@;
        quoted.push(q);
        proof {
            assert(args@.take(i + 1) =~= args@.take(i as int).push(args@[i as int]));
            assert(quoted@.map_values(|a: String| a@) =~= prev.map_values(|a: String| a@).push(
                toml_string_literal(args@[i as int]@),
            ));
            assert(args@.take(i + 1).map_values(|a: String| toml_string_literal(a@)) =~= args@.take(
                i as int,
            ).map_values(|a: String| toml_string_literal(a@)).push(
                toml_string_literal(args@[i as int]@),
            ));
        }
        i += 1;
    }
    proof {
        assert(args@.take(args@.len() as int) =~= args@);
        assert(args@.map_values(|a: String| toml_string_literal(a@)) =~= args@.map_values(
            |a: String| a@,
        ).map_values(|a: Seq<char>| toml_string_literal(a)));
    }
    let mut s = String::new();
    push_str(&mut s, "[model_providers.");
    push_str(&mut s, p.name.as_str());
    push_str(&mut s, "]\nname = ");
    push_str(&mut s, toml_str(p.label.as_str()).as_str());
    push_str(&mut s, "\nbase_url = ");
    push_str(&mut s, toml_str(base_url).as_str());
    push_str(&mut s, "\nwire_api = \"responses\"\nrequires_openai_auth = false\n\n[model_providers.");
    push_str(&mut s, p.name.as_str());
    push_str(&mut s, ".auth]\ncommand = ");
    push_str(&mut s, toml_str(command).as_str());
    push_str(&mut s, "\nargs = [");
    let j = crate::config::join_strings(&quoted, ", ");
    push_str(&mut s, j.as_str());
    push_str(&mut s, "]\n");
    s
}

/// The tables of `p` for this platform, when it has a known endpoint.
pub fn tables_for(p: &Provider, windows: bool, system_root: Option<String>) -> (r: Option<String>)
    ensures
        match p.base_url {
            Some(u) => r matches Some(t) && ({
                let (c, a) = key_reader_spec(p.key_file@, windows, opt_view(system_root));
                t@ == provider_tables_spec(*p, u@, c, a)
            }),
            None => r is None,
        },
{
    match &p.base_url {
        Some(u) => {
            let (command, args) = key_reader(p.key_file.as_str(), windows, system_root);
            Some(provider_tables(p, u.as_str(), command.as_str(), &args))
        },
        None => None,
    }
}

// ---------------------------------------------------------------------------
// Commenting out the settings the managed block takes over
// ---------------------------------------------------------------------------

/// The settings the managed block owns. Left outside it, they would clash
/// with it (TOML forbids a key twice).
pub open spec fn is_managed_key(k: Seq<char>) -> bool {
    k == "model_provider"@ || k == "model"@ || k == "model_catalog_json"@ || k
        == "model_reasoning_effort"@
}

/// What marks a line this tool commented out.
pub open spec fn init_mark() -> Seq<char> {
    "# (codexSwitch init) "@
}

/// The length of the first line of `s`, its `\n` included.
pub open spec fn line_len(s: Seq<char>) -> nat
    decreases s.len(),
{
    if s.len() == 0 {
        0
    } else if s[0] == '\n' {
        1
    } else {
        1 + line_len(s.drop_first())
    }
}

/// The characters of `s` before its first `=` (all of them when it has none).
pub open spec fn before_eq(s: Seq<char>) -> Seq<char>
    decreases s.len(),
{
    if s.len() == 0 || s[0] == '=' {
        Seq::empty()
    } else {
        seq![s[0]] + before_eq(s.drop_first())
    }
}

/// Whether a line (with `top` telling whether no table header came before
/// it) sets a top-level key the managed block owns.
pub open spec fn line_is_managed(line: Seq<char>, top: bool) -> bool {
    let t = trim_start(line);
    &&& top
    &&& !(t.len() > 0 && t[0] == '[')
    &&& t.contains('=')
    &&& is_managed_key(trim(before_eq(t)))
}

/// Whether the lines after this one are still at top level.
pub open spec fn still_top(line: Seq<char>, top: bool) -> bool {
    let t = trim_start(line);
    top && !(t.len() > 0 && t[0] == '[')
}

/// `text` with the top-level settings the managed block owns commented out
/// (`top` tells whether no table header came before).
pub open spec fn comment_managed(text: Seq<char>, top: bool) -> Seq<char>
    decreases text.len(),
{
    if text.len() == 0 {
        Seq::empty()
    } else {
        let k = line_len(text);
        let line = text.take(k as int);
        proof {
            lemma_line_len(text);
        }
        (if line_is_managed(line, top) {
            init_mark()
        } else {
            Seq::empty()
        }) + line + if k > 0 {
            comment_managed(text.skip(k as int), still_top(line, top))
        } else {
            Seq::empty()
        }
    }
}

pub proof fn lemma_line_len(s: Seq<char>)
    ensures
        s.len() > 0 ==> 1 <= line_len(s) <= s.len(),
        forall|j: int| 0 <= j < line_len(s) - 1 ==> s[j] != '\n',
        line_len(s) < s.len() ==> s[line_len(s) - 1] == '\n',
        line_len(s) > 0 && line_len(s) == s.len() ==> s[line_len(s) - 1] == '\n' || forall|j: int|
            0 <= j < s.len() ==> s[j] != '\n',
    decreases s.len(),
{
    if s.len() > 0 && s[0] != '\n' {
        lemma_line_len(s.drop_first());
        assert forall|j: int| 0 <= j < line_len(s) - 1 implies s[j] != '\n' by {
            if j > 0 {
                assert(s[j] == s.drop_first()[j - 1]);
            }
        }
        if line_len(s) > 0 && line_len(s) == s.len() && s[line_len(s) - 1] != '\n' {
            assert forall|j: int| 0 <= j < s.len() implies s[j] != '\n' by {
                if j > 0 {
                    assert(s[j] == s.drop_first()[j - 1]);
                }
            }
        }
    }
}

/// The end of the line that starts at `from`: one past its `\n`, or the end.
fn line_end(v: &Vec<char>, from: usize) -> (r: usize)
    requires
        from < v.len(),
    ensures
        r == from + line_len(v@.skip(from as int)),
{
    let mut i = from;
    while i < v.len() && v[i] != '\n'
        invariant
            from <= i <= v.len(),
            line_len(v@.skip(from as int)) == (i - from) + line_len(v@.skip(i as int)),
        decreases v.len() - i,
    {
        assert(v@.skip(i as int).drop_first() =~= v@.skip(i + 1));
        i += 1;
    }
    if i < v.len() {
        assert(v@.skip(i as int)[0] == '\n');
        i + 1
    } else {
        assert(v@.skip(i as int).len() == 0);
        i
    }
}

fn key_part(t: &Vec<char>) -> (r: Vec<char>)
    ensures
        r@ == before_eq(t@),
{
    let mut r: Vec<char> = Vec::new();
    let mut i: usize = 0;
    assert(t@.skip(0) =~= t@);
    assert(r@ + before_eq(t@) =~= before_eq(t@));
    while i < t.len() && t[i] != '='
        invariant
            i <= t.len(),
            before_eq(t@) == r@ + before_eq(t@.skip(i as int)),
        decreases t.len() - i,
    {
        assert(t@.skip(i as int).drop_first() =~= t@.skip(i + 1));
        let ghost prev = r@;
        r.push(t[i]);
        assert(r@ =~= prev + seq![t@[i as int]]);
        i += 1;
    }
    proof {
        if i < t.len() {
            assert(t@.skip(i as int)[0] == '=');
        }
        assert(before_eq(t@.skip(i as int)) =~= Seq::<char>::empty());
    }
    r
}

fn is_managed_key_chars(k: &Vec<char>) -> (r: bool)
    ensures
        r == is_managed_key(k@),
{
    chars_eq(k, &chars_of("model_provider")) || chars_eq(k, &chars_of("model")) || chars_eq(
        k,
        &chars_of("model_catalog_json"),
    ) || chars_eq(k, &chars_of("model_reasoning_effort"))
}

/// `text` with the top-level settings the managed block owns commented out.
pub fn comment_out_managed(text: &str) -> (r: String)
    ensures
        r@ == comment_managed(text@, true),
{
    let v = chars_of(text);
    let mut out = String::new();
    let mut top = true;
    let mut i: usize = 0;
    assert(v@.skip(0) =~= v@);
    while i < v.len()
        invariant
            v@ == text@,
            i <= v.len(),
            comment_managed(text@, true) == out@ + comment_managed(v@.skip(i as int), top),
        decreases v.len() - i,
    {
        let e = line_end(&v, i);
        proof {
            lemma_line_len(v@.skip(i as int));
        }
        let line = crate::text::take_chars(&crate::text::skip_chars(&v, i), e - i);
        let ghost rest = v@.skip(i as int);
        assert(line@ == rest.take(line_len(rest) as int));
        let t = trim_start_chars(&line);
        let header = t.len() > 0 && t[0] == '[';
        let mark = top && !header && has_char(&t, '=') && is_managed_key_chars(
            &trim_chars(&key_part(&t)),
        );
        assert(mark == line_is_managed(line@, top));
        if mark {
            push_str(&mut out, "# (codexSwitch init) ");
        }
        push_chars(&mut out, &line);
        let ghost old_top = top;
        top = top && !header;
        proof {
            assert(rest.skip(line_len(rest) as int) =~= v@.skip(e as int));
            assert(top == still_top(line@, old_top));
        }
        i = e;
    }
    assert(v@.skip(v@.len() as int) =~= Seq::<char>::empty());
    out
}

fn trim_start_chars(v: &Vec<char>) -> (r: Vec<char>)
    ensures
        r@ == trim_start(v@),
{
    let mut i: usize = 0;
    assert(v@.skip(0) =~= v@);
    while i < v.len() && is_space_char(v[i])
        invariant
            i <= v.len(),
            trim_start(v@) == trim_start(v@.skip(i as int)),
        decreases v.len() - i,
    {
        assert(v@.skip(i as int).drop_first() =~= v@.skip(i + 1));
        i += 1;
    }
    proof {
        if i < v.len() {
            assert(v@.skip(i as int)[0] == v@[i as int]);
        }
    }
    crate::text::skip_chars(v, i)
}

// ---------------------------------------------------------------------------
// The whole file
// ---------------------------------------------------------------------------

/// Why setup could not complete config.toml.
pub enum SetupError {
    /// config.toml is not valid TOML.
    Unparsable,
}

/// The provider and model the managed block added to a hand-written config
/// keeps: those it selected when the provider is known, else the default.
pub open spec fn kept_selection(cfg: Config, text: Seq<char>, p: Provider, model: Seq<char>) -> bool {
    let current = toml_top_level_str(text, "model_provider"@);
    match current {
        Some(Some(n)) if lookup(cfg.providers@, n) is Some => p == lookup(cfg.providers@, n)->0
            && model == match toml_top_level_str(text, "model"@) {
            Some(Some(m)) => m,
            _ => p.model@,
        },
        _ => (match lookup(cfg.providers@, "zai"@) {
            Some(z) => p == z,
            None => p == cfg.providers@[0],
        }) && model == p.model@,
    }
}

/// The provider a hand-written config selects is kept when it is configured,
/// with the model it sets, or else that provider's own model.
pub proof fn lemma_hand_selection_is_kept(cfg: Config, text: Seq<char>, p: Provider, model: Seq<char>, n: Seq<char>, q: Provider)
    requires
        kept_selection(cfg, text, p, model),
        toml_top_level_str(text, "model_provider"@) == Some(Some(n)),
        lookup(cfg.providers@, n) == Some(q),
    ensures
        p == q,
        model == (match toml_top_level_str(text, "model"@) {
            Some(Some(m)) => m,
            _ => q.model@,
        }),
{
}

/// Where the hand-written config selects no configured provider, the default
/// provider (`zai` when configured, else the first) is selected with its model.
pub proof fn lemma_unknown_selection_uses_default(cfg: Config, text: Seq<char>, p: Provider, model: Seq<char>)
    requires
        kept_selection(cfg, text, p, model),
        !(toml_top_level_str(text, "model_provider"@) matches Some(Some(n)) && lookup(cfg.providers@, n) is Some),
    ensures
        model == p.model@,
        lookup(cfg.providers@, "zai"@) matches Some(z) ==> p == z,
        lookup(cfg.providers@, "zai"@) is None ==> p == cfg.providers@[0],
{
}

/// The managed block that `add_managed_block` writes selects the configured
/// provider the hand-written config named.
pub proof fn lemma_added_block_selects_hand_provider(cfg: Config, text: Seq<char>, out: Seq<char>, n: Seq<char>, q: Provider)
    requires
        exists|p: Provider, model: Seq<char>|
            kept_selection(cfg, text, p, model) && out == managed_block_spec(p, model) + "\n\n"@
                + comment_managed(text, true),
        toml_top_level_str(text, "model_provider"@) == Some(Some(n)),
        lookup(cfg.providers@, n) == Some(q),
    ensures
        out == managed_block_spec(
            q,
            match toml_top_level_str(text, "model"@) {
                Some(Some(m)) => m,
                _ => q.model@,
            },
        ) + "\n\n"@ + comment_managed(text, true),
{
    let (p, model) = choose|p: Provider, model: Seq<char>|
        kept_selection(cfg, text, p, model) && out == managed_block_spec(p, model) + "\n\n"@
            + comment_managed(text, true);
    lemma_hand_selection_is_kept(cfg, text, p, model, n, q);
}

/// The keys the managed block writes, in order.
pub open spec fn block_keys() -> Seq<Seq<char>> {
    seq!["model_provider"@, "model"@, "model_catalog_json"@, "model_reasoning_effort"@]
}

/// One line of the managed block: `key = "value"`, after a line break.
pub open spec fn block_setting(key: Seq<char>, value: Seq<char>) -> Seq<char> {
    "\n"@ + key + " = "@ + toml_string_literal(value)
}

/// The managed block's body is one setting per key of `block_keys`, and each
/// of those keys is one that is commented out where a hand-written config
/// sets it at top level, so the block's keys are never set twice.
pub proof fn lemma_block_keys_are_managed(name: Seq<char>, model: Seq<char>, catalog: Seq<char>, effort: Seq<char>)
    ensures
        block_body_spec(name, model, catalog, effort) == block_setting(block_keys()[0], name)
            + block_setting(block_keys()[1], model) + block_setting(block_keys()[2], catalog)
            + block_setting(block_keys()[3], effort) + "\n"@,
        forall|i: int| 0 <= i < block_keys().len() ==> is_managed_key(#[trigger] block_keys()[i]),
{
    reveal_strlit("model_provider");
    reveal_strlit("model");
    reveal_strlit("model_catalog_json");
    reveal_strlit("model_reasoning_effort");
    reveal_strlit("\nmodel_provider = ");
    reveal_strlit("\nmodel = ");
    reveal_strlit("\nmodel_catalog_json = ");
    reveal_strlit("\nmodel_reasoning_effort = ");
    reveal_strlit("\n");
    reveal_strlit(" = ");
    let l = toml_string_literal(name);
    assert("\nmodel_provider = "@ =~= "\n"@ + "model_provider"@ + " = "@);
    assert("\nmodel = "@ =~= "\n"@ + "model"@ + " = "@);
    assert("\nmodel_catalog_json = "@ =~= "\n"@ + "model_catalog_json"@ + " = "@);
    assert("\nmodel_reasoning_effort = "@ =~= "\n"@ + "model_reasoning_effort"@ + " = "@);
    assert(block_body_spec(name, model, catalog, effort) =~= block_setting(block_keys()[0], name)
        + block_setting(block_keys()[1], model) + block_setting(block_keys()[2], catalog)
        + block_setting(block_keys()[3], effort) + "\n"@);
}

/// A top-level line of a hand-written config that sets one of the keys the
/// managed block writes is commented out, and the lines after it are still
/// read at top level.
pub proof fn lemma_block_key_line_commented_out(line: Seq<char>, rest: Seq<char>, i: int)
    requires
        0 <= i < block_keys().len(),
        line.len() > 0,
        line.last() == '\n',
        forall|j: int| 0 <= j < line.len() - 1 ==> line[j] != '\n',
        !(trim_start(line).len() > 0 && trim_start(line)[0] == '['),
        trim_start(line).contains('='),
        trim(before_eq(trim_start(line))) == block_keys()[i],
    ensures
        comment_managed(line + rest, true) == init_mark() + line + comment_managed(rest, true),
{
    let s = line + rest;
    lemma_line_len(s);
    let k = line_len(s);
    if k < line.len() {
        assert(s[k - 1] == line[k - 1]);
    }
    if k > line.len() {
        assert(s[line.len() - 1] == line[line.len() - 1]);
    }
    assert(k == line.len());
    assert(s.take(k as int) =~= line);
    assert(s.skip(k as int) =~= rest);
    lemma_block_keys_are_managed(Seq::empty(), Seq::empty(), Seq::empty(), Seq::empty());
    assert(is_managed_key(block_keys()[i]));
    assert(line_is_managed(line, true));
    assert(still_top(line, true));
}

/// Adds the managed block to a config written by hand. The settings it takes
/// over are commented out where they were, and the provider they chose is
/// kept when this tool knows it.
pub fn add_managed_block(text: &str, cfg: &Config) -> (r: Result<String, SetupError>)
    requires
        cfg.providers@.len() > 0,
        sorted_by_name(cfg.providers@),
    ensures
        match r {
            Ok(out) => toml_top_level_str(text@, "model_provider"@) is Some && exists|
                p: Provider,
                model: Seq<char>,
            |
                kept_selection(*cfg, text@, p, model) && out@ == managed_block_spec(p, model)
                    + "\n\n"@ + comment_managed(text@, true),
            Err(SetupError::Unparsable) => toml_top_level_str(text@, "model_provider"@) is None,
        },
        r matches Ok(out) ==> has_block(out@),
{
    let current = match toml_get_str(text, "model_provider") {
        Ok(c) => c,
        Err(()) => return Err(SetupError::Unparsable),
    };
    let known: Option<&Provider> = match &current {
        Some(n) => match cfg.provider(n.as_str()) {
            Ok(p) => Some(p),
            Err(_) => None,
        },
        None => None,
    };
    let (p, model): (&Provider, String) = match known {
        Some(p) => {
            let m = match toml_get_str(text, "model") {
                Ok(Some(m)) => m,
                _ => p.model.clone(),
            };
            (p, m)
        },
        None => {
            let p = default_provider(cfg);
            (p, p.model.clone())
        },
    };
    let mut s = managed_block(p, model.as_str());
    push_str(&mut s, "\n\n");
    let body = comment_out_managed(text);
    push_str(&mut s, body.as_str());
    proof {
        assert(kept_selection(*cfg, text@, *p, model@));
        lemma_block_is_found(*p, model@);
        lemma_block_kept_by_appending(managed_block_spec(*p, model@), "\n\n"@ + body@);
        assert(s@ =~= managed_block_spec(*p, model@) + ("\n\n"@ + body@));
    }
    Ok(s)
}

/// The header comment of a new config.toml.
pub open spec fn new_config_header() -> Seq<char> {
    "# Codex アプリの第2インスタンス（codexSwitch）の設定。\n# 目印の2行で囲んだ管理ブロックは、codexSwitch が起動のたびに書き換えます。\n\n"@
}

/// The tables of the providers with a known endpoint, each after a blank line.
pub open spec fn all_tables(ps: Seq<Provider>, windows: bool, root: Option<Seq<char>>) -> Seq<char>
    decreases ps.len(),
{
    if ps.len() == 0 {
        Seq::empty()
    } else {
        let p = ps.last();
        all_tables(ps.drop_last(), windows, root) + match p.base_url {
            Some(u) => {
                let (c, a) = key_reader_spec(p.key_file@, windows, root);
                seq!['\n'] + provider_tables_spec(p, u@, c, a)
            },
            None => Seq::empty(),
        }
    }
}

/// A new config.toml: the managed block selecting the default provider, then
/// the tables of every provider with a known endpoint.
pub fn new_config(cfg: &Config, windows: bool, system_root: Option<String>) -> (r: String)
    requires
        cfg.providers@.len() > 0,
        sorted_by_name(cfg.providers@),
    ensures
        exists|p: Provider|
            (match lookup(cfg.providers@, "zai"@) {
                Some(z) => p == z,
                None => p == cfg.providers@[0],
            }) && r@ == new_config_header() + managed_block_spec(p, p.model@) + "\n"@
                + all_tables(
                cfg.providers@,
                windows,
                opt_view(system_root),
            ),
{
    let ghost root = opt_view(system_root);
    let p = default_provider(cfg);
    let mut s = String::new();
    push_str(
        &mut s,
        "# Codex アプリの第2インスタンス（codexSwitch）の設定。\n# 目印の2行で囲んだ管理ブロックは、codexSwitch が起動のたびに書き換えます。\n\n",
    );
    push_str(&mut s, managed_block(p, p.model.as_str()).as_str());
    push_str(&mut s, "\n");
    let ghost head = s@;
    let mut i: usize = 0;
    while i < cfg.providers.len()
        invariant
            i <= cfg.providers.len(),
            root == opt_view(system_root),
            s@ == head + all_tables(cfg.providers@.take(i as int), windows, root),
        decreases cfg.providers.len() - i,
    {
        let sr = match &system_root {
            Some(x) => Some(x.clone()),
            None => None,
        };
        let t = tables_for(&cfg.providers[i], windows, sr);
        let ghost prev = s@;
        match t {
            Some(t) => {
                push_char(&mut s, '\n');
                push_str(&mut s, t.as_str());
            },
            None => {},
        }
        proof {
            let taken = cfg.providers@.take(i + 1);
            assert(taken.drop_last() =~= cfg.providers@.take(i as int));
            assert(taken.last() == cfg.providers@[i as int]);
            assert(s@ =~= head + all_tables(taken, windows, root));
        }
        i += 1;
    }
    assert(cfg.providers@.take(cfg.providers@.len() as int) =~= cfg.providers@);
    s
}


/// The keys of the table `table` when `text` is parsed as a TOML table
/// (`toml::from_str::<toml::Table>`): `None` when `text` is not valid TOML,
/// the empty sequence when there is no such table.
pub uninterp spec fn toml_subtable_keys(text: Seq<char>, table: Seq<char>) -> Option<Seq<Seq<char>>>;

/// Parses `text` as TOML and lists the keys of the table `table`.
#[verifier::external_body]
fn toml_table_keys(text: &str, table: &str) -> (r: Result<Vec<String>, ()>)
    ensures
        match r {
            Ok(keys) => toml_subtable_keys(text@, table@) == Some(keys@.map_values(|k: String| k@)),
            Err(()) => toml_subtable_keys(text@, table@) is None,
        },
{
    match toml::from_str::<toml::Table>(text) {
        Ok(t) => Ok(match t.get(table).and_then(|v| v.as_table()) {
            Some(sub) => sub.keys().cloned().collect(),
            None => Vec::new(),
        }),
        Err(_) => Err(()),
    }
}

/// `text` followed by the tables of the providers in `ps` that have a known
/// endpoint and are not among `defined`, each after a blank line.
pub open spec fn with_tables(text: Seq<char>, ps: Seq<Provider>, defined: Seq<Seq<char>>, windows: bool, root: Option<Seq<char>>) -> Seq<char>
    decreases ps.len(),
{
    if ps.len() == 0 {
        text
    } else {
        let prev = with_tables(text, ps.drop_last(), defined, windows, root);
        let p = ps.last();
        match p.base_url {
            Some(u) => if defined.contains(p.name@) {
                prev
            } else {
                let (c, a) = key_reader_spec(p.key_file@, windows, root);
                prev + (if prev.len() > 0 && prev.last() == '\n' {
                    seq!['\n']
                } else {
                    seq!['\n', '\n']
                }) + provider_tables_spec(p, u@, c, a)
            },
            None => prev,
        }
    }
}

/// Adding tables only appends: the text is kept as it was, in front.
proof fn lemma_with_tables_extends(text: Seq<char>, ps: Seq<Provider>, defined: Seq<Seq<char>>, windows: bool, root: Option<Seq<char>>)
    ensures
        exists|rest: Seq<char>| with_tables(text, ps, defined, windows, root) == text + rest,
    decreases ps.len(),
{
    if ps.len() == 0 {
        assert(text + Seq::<char>::empty() =~= text);
    } else {
        lemma_with_tables_extends(text, ps.drop_last(), defined, windows, root);
        let prev = with_tables(text, ps.drop_last(), defined, windows, root);
        let rest0 = choose|rest: Seq<char>| prev == text + rest;
        let full = with_tables(text, ps, defined, windows, root);
        let tail = full.skip(prev.len() as int);
        assert(prev.is_prefix_of(full));
        assert(full =~= text + (rest0 + tail));
    }
}

/// The names of the providers whose tables `with_tables` adds.
pub open spec fn added_tables(ps: Seq<Provider>, defined: Seq<Seq<char>>) -> Seq<Seq<char>>
    decreases ps.len(),
{
    if ps.len() == 0 {
        Seq::empty()
    } else {
        let p = ps.last();
        added_tables(ps.drop_last(), defined) + if p.base_url is Some && !defined.contains(p.name@) {
            seq![p.name@]
        } else {
            Seq::empty()
        }
    }
}

/// A completion adds nothing once every provider with a known endpoint has a
/// table: the text stays as it is and no table is reported. Together with the
/// contract of `complete_config`, a second completion of a text whose listed
/// tables cover those providers returns it unchanged, with no changes.
pub proof fn lemma_completion_adds_nothing(text: Seq<char>, ps: Seq<Provider>, defined: Seq<Seq<char>>, windows: bool, root: Option<Seq<char>>)
    requires
        forall|i: int| 0 <= i < ps.len() && (#[trigger] ps[i]).base_url is Some ==> defined.contains(ps[i].name@),
    ensures
        with_tables(text, ps, defined, windows, root) == text,
        added_tables(ps, defined) == Seq::<Seq<char>>::empty(),
    decreases ps.len(),
{
    if ps.len() > 0 {
        let q = ps.drop_last();
        assert forall|i: int| 0 <= i < q.len() && (#[trigger] q[i]).base_url is Some implies defined.contains(q[i].name@) by {
            assert(q[i] == ps[i]);
        }
        lemma_completion_adds_nothing(text, q, defined, windows, root);
        assert(ps.last() == ps[ps.len() - 1]);
        assert(added_tables(q, defined) + Seq::<Seq<char>>::empty() == Seq::<Seq<char>>::empty());
    }
}

/// Every provider with a known endpoint either had a table or gets one.
proof fn lemma_added_tables_cover(ps: Seq<Provider>, defined: Seq<Seq<char>>)
    ensures
        forall|i: int| 0 <= i < ps.len() && (#[trigger] ps[i]).base_url is Some ==> defined.contains(ps[i].name@)
            || added_tables(ps, defined).contains(ps[i].name@),
    decreases ps.len(),
{
    if ps.len() > 0 {
        let q = ps.drop_last();
        lemma_added_tables_cover(q, defined);
        let tail = if ps.last().base_url is Some && !defined.contains(ps.last().name@) {
            seq![ps.last().name@]
        } else {
            Seq::<Seq<char>>::empty()
        };
        assert(added_tables(ps, defined) == added_tables(q, defined) + tail);
        assert forall|i: int| 0 <= i < ps.len() && (#[trigger] ps[i]).base_url is Some implies defined.contains(ps[i].name@)
            || added_tables(ps, defined).contains(ps[i].name@) by {
            if i < q.len() {
                assert(q[i] == ps[i]);
                if added_tables(q, defined).contains(ps[i].name@) {
                    let k = choose|k: int| 0 <= k < added_tables(q, defined).len() && added_tables(q, defined)[k] == ps[i].name@;
                    assert(added_tables(ps, defined)[k] == ps[i].name@);
                }
            } else if !defined.contains(ps[i].name@) {
                assert(added_tables(ps, defined)[added_tables(q, defined).len() as int] == ps[i].name@);
            }
        }
    }
}

/// Completing twice: when the tables listed for the completed text include
/// those listed before and those the completion appended, completing it again
/// leaves the text as it is and reports no table.
pub proof fn lemma_completion_is_stable(completed: Seq<char>, ps: Seq<Provider>, defined: Seq<Seq<char>>, listed: Seq<Seq<char>>, windows: bool, root: Option<Seq<char>>)
    requires
        forall|n: Seq<char>| #[trigger] defined.contains(n) || added_tables(ps, defined).contains(n) ==> listed.contains(n),
    ensures
        with_tables(completed, ps, listed, windows, root) == completed,
        added_tables(ps, listed) == Seq::<Seq<char>>::empty(),
{
    lemma_added_tables_cover(ps, defined);
    assert forall|i: int| 0 <= i < ps.len() && (#[trigger] ps[i]).base_url is Some implies listed.contains(ps[i].name@) by {
        assert(defined.contains(ps[i].name@) || added_tables(ps, defined).contains(ps[i].name@));
    }
    lemma_completion_adds_nothing(completed, ps, listed, windows, root);
}

fn contains_string(v: &Vec<String>, s: &str) -> (r: bool)
    ensures
        r == v@.map_values(|k: String| k@).contains(s@),
{
    let mut i: usize = 0;
    while i < v.len()
        invariant
            i <= v.len(),
            forall|j: int| 0 <= j < i ==> #[trigger] v@[j]@ != s@,
        decreases v.len() - i,
    {
        if crate::text::str_eq(v[i].as_str(), s) {
            assert(v@.map_values(|k: String| k@)[i as int] == s@);
            return true;
        }
        i += 1;
    }
    proof {
        let m = v@.map_values(|k: String| k@);
        if m.contains(s@) {
            let j = choose|j: int| 0 <= j < m.len() && #[trigger] m[j] == s@;
            assert(v@[j]@ == s@);
        }
    }
    false
}

/// The result of completing a config.toml.
pub struct Completed {
    /// The new text.
    pub text: String,
    /// What was changed, for the user; empty when the file stays as it is.
    pub changes: Vec<String>,
}

/// The description of an added provider table.
pub open spec fn added_table_change(name: Seq<char>) -> Seq<char> {
    "[model_providers."@ + name + "] を追加"@
}

/// The text a completion starts from: `text` itself when it has a managed
/// block, else `text` with the block added (which needs it to parse).
pub open spec fn with_block_of(cfg: Config, text: Seq<char>, with_block: Seq<char>) -> bool {
    if has_block(text) {
        with_block == text
    } else {
        toml_top_level_str(text, "model_provider"@) is Some && exists|p: Provider, model: Seq<char>|
            kept_selection(cfg, text, p, model) && with_block == managed_block_spec(p, model)
                + "\n\n"@ + comment_managed(text, true)
    }
}

/// Completes an existing config.toml: adds the managed block when it has
/// none, then the tables of the providers with a known endpoint that it does
/// not define. It fails when the text, or the text with the block added, is
/// not TOML.
pub fn complete_config(text: &str, cfg: &Config, windows: bool, system_root: Option<String>) -> (r: Result<Completed, SetupError>)
    requires
        cfg.providers@.len() > 0,
        sorted_by_name(cfg.providers@),
    ensures
        match r {
            Ok(c) => exists|with_block: Seq<char>, defined: Seq<Seq<char>>| {
                &&& with_block_of(*cfg, text@, with_block)
                &&& toml_subtable_keys(with_block, "model_providers"@) == Some(defined)
                &&& c.text@ == with_tables(with_block, cfg.providers@, defined, windows, opt_view(system_root))
                &&& c.changes@.map_values(|x: String| x@) == (if has_block(text@) {
                    Seq::empty()
                } else {
                    seq!["管理ブロックを追加"@]
                }) + added_tables(cfg.providers@, defined).map_values(|n: Seq<char>| added_table_change(n))
            },
            Err(SetupError::Unparsable) => (!has_block(text@) && toml_top_level_str(
                text@,
                "model_provider"@,
            ) is None) || exists|with_block: Seq<char>|
                with_block_of(*cfg, text@, with_block) && toml_subtable_keys(
                    with_block,
                    "model_providers"@,
                ) is None,
        },
        r matches Ok(c) ==> has_block(c.text@),
        r matches Ok(c) ==> (has_block(text@) ==> text@.is_prefix_of(c.text@)),
{
    let mut changes: Vec<String> = Vec::new();
    let mut current: String = if has_managed_block(text) {
        string_from(&chars_of(text))
    } else {
        let t = match add_managed_block(text, cfg) {
            Ok(t) => t,
            Err(e) => return Err(e),
        };
        changes.push(string_from(&chars_of("管理ブロックを追加")));
        t
    };
    let ghost with_block = current@;
    let defined = match toml_table_keys(current.as_str(), "model_providers") {
        Ok(k) => k,
        Err(()) => {
            assert(with_block_of(*cfg, text@, with_block));
            return Err(SetupError::Unparsable);
        },
    };
    assert(with_block_of(*cfg, text@, with_block));
    let ghost dv = defined@.map_values(|k: String| k@);
    let ghost root = opt_view(system_root);
    let ghost first = changes@.map_values(|x: String| x@);
    let mut i: usize = 0;
    while i < cfg.providers.len()
        invariant
            i <= cfg.providers.len(),
            root == opt_view(system_root),
            dv == defined@.map_values(|k: String| k@),
            current@ == with_tables(with_block, cfg.providers@.take(i as int), dv, windows, root),
            changes@.map_values(|x: String| x@) == first + added_tables(
                cfg.providers@.take(i as int),
                dv,
            ).map_values(|n: Seq<char>| added_table_change(n)),
        decreases cfg.providers.len() - i,
    {
        let p = &cfg.providers[i];
        let ghost prev = current@;
        let ghost prev_changes = changes@.map_values(|x: String| x@);
        let is_defined = contains_string(&defined, p.name.as_str());
        if !is_defined {
            let sr = match &system_root {
                Some(x) => Some(x.clone()),
                None => None,
            };
            match tables_for(p, windows, sr) {
                Some(t) => {
                    let cv = chars_of(current.as_str());
                    if !(cv.len() > 0 && cv[cv.len() - 1] == '\n') {
                        push_char(&mut current, '\n');
                    }
                    push_char(&mut current, '\n');
                    push_str(&mut current, t.as_str());
                    let mut msg = String::new();
                    push_str(&mut msg, "[model_providers.");
                    push_str(&mut msg, p.name.as_str());
                    push_str(&mut msg, "] を追加");
                    assert(msg@ == added_table_change(p.name@));
                    changes.push(msg);
                    assert(changes@.map_values(|x: String| x@) =~= prev_changes.push(
                        added_table_change(p.name@),
                    ));
                },
                None => {},
            }
        }
        proof {
            let taken = cfg.providers@.take(i + 1);
            assert(taken.drop_last() =~= cfg.providers@.take(i as int));
            assert(taken.last() == cfg.providers@[i as int]);
            let tail = if cfg.providers@[i as int].base_url is Some && !dv.contains(
                cfg.providers@[i as int].name@,
            ) {
                seq![cfg.providers@[i as int].name@]
            } else {
                Seq::empty()
            };
            assert(added_tables(taken, dv) == added_tables(cfg.providers@.take(i as int), dv) + tail);
            assert(added_tables(taken, dv).map_values(|n: Seq<char>| added_table_change(n)) =~= added_tables(
                cfg.providers@.take(i as int),
                dv,
            ).map_values(|n: Seq<char>| added_table_change(n)) + tail.map_values(
                |n: Seq<char>| added_table_change(n),
            ));
            assert(changes@.map_values(|x: String| x@) =~= prev_changes + tail.map_values(
                |n: Seq<char>| added_table_change(n),
            ));
            assert(changes@.map_values(|x: String| x@) =~= first + added_tables(taken, dv).map_values(
                |n: Seq<char>| added_table_change(n),
            ));
            assert(current@ =~= with_tables(with_block, taken, dv, windows, root));
        }
        i += 1;
    }
    assert(cfg.providers@.take(cfg.providers@.len() as int) =~= cfg.providers@);
    proof {
        if has_block(text@) {
            assert(first =~= Seq::<Seq<char>>::empty());
        } else {
            assert(first =~= seq!["管理ブロックを追加"@]);
            let (p, model) = choose|p: Provider, model: Seq<char>|
                kept_selection(*cfg, text@, p, model) && with_block == managed_block_spec(p, model)
                    + "\n\n"@ + comment_managed(text@, true);
            lemma_block_is_found(p, model);
            lemma_block_kept_by_appending(
                managed_block_spec(p, model),
                "\n\n"@ + comment_managed(text@, true),
            );
            assert(with_block =~= managed_block_spec(p, model) + ("\n\n"@ + comment_managed(
                text@,
                true,
            )));
        }
        lemma_with_tables_extends(with_block, cfg.providers@, dv, windows, root);
        let rest = choose|rest: Seq<char>| with_tables(with_block, cfg.providers@, dv, windows, root)
            == with_block + rest;
        lemma_block_kept_by_appending(with_block, rest);
        assert(with_block.is_prefix_of(current@)) by {
            assert(current@.subrange(0, with_block.len() as int) =~= with_block);
        }
    }
    Ok(Completed { text: current, changes })
}


/// Whether setup leaves a catalog to the first launch: it has to be fetched
/// and the key is not there yet.
pub fn defer_fetch(needs_fetch: bool, has_key: bool) -> (r: bool)
    ensures
        r == (needs_fetch && !has_key),
{
    needs_fetch && !has_key
}

/// The line setup prints for a catalog: deferred, or what `ensure` did (or
/// why it failed, in `result`); `shown` is the catalog's path as displayed.
pub open spec fn catalog_status_spec(deferred: bool, result: Result<crate::catalog::Outcome, Seq<char>>, shown: Seq<char>) -> Seq<char> {
    if deferred {
        "キーを入れたあと、最初の起動で取得します"@
    } else {
        match result {
            Ok(crate::catalog::Outcome::Present) => "あり（"@ + shown + "）"@,
            Ok(crate::catalog::Outcome::Bundled) => "作成しました（"@ + shown + "）"@,
            Ok(crate::catalog::Outcome::Fetched) => "取得しました（"@ + shown + "）"@,
            Err(e) => "取得できませんでした。最初の起動でもう一度取得します（"@ + e + "）"@,
        }
    }
}

/// The line setup prints for a catalog.
pub fn catalog_status(deferred: bool, result: &Result<crate::catalog::Outcome, String>, shown: &str) -> (r: String)
    ensures
        r@ == catalog_status_spec(
            deferred,
            match result {
                Ok(o) => Ok(*o),
                Err(e) => Err(e@),
            },
            shown@,
        ),
{
    let mut s = String::new();
    if deferred {
        push_str(&mut s, "キーを入れたあと、最初の起動で取得します");
        return s;
    }
    match result {
        Ok(crate::catalog::Outcome::Present) => {
            push_str(&mut s, "あり（");
            push_str(&mut s, shown);
            push_str(&mut s, "）");
        },
        Ok(crate::catalog::Outcome::Bundled) => {
            push_str(&mut s, "作成しました（");
            push_str(&mut s, shown);
            push_str(&mut s, "）");
        },
        Ok(crate::catalog::Outcome::Fetched) => {
            push_str(&mut s, "取得しました（");
            push_str(&mut s, shown);
            push_str(&mut s, "）");
        },
        Err(e) => {
            push_str(&mut s, "取得できませんでした。最初の起動でもう一度取得します（");
            push_str(&mut s, e.as_str());
            push_str(&mut s, "）");
        },
    }
    s
}


/// `s` with the mark taken off every line that starts with it.
pub open spec fn remove_marks(s: Seq<char>) -> Seq<char>
    decreases s.len(),
{
    if s.len() == 0 {
        Seq::empty()
    } else {
        let k = line_len(s);
        let line = s.take(k as int);
        proof {
            lemma_line_len(s);
        }
        (if init_mark().is_prefix_of(line) {
            line.skip(init_mark().len() as int)
        } else {
            line
        }) + if k > 0 {
            remove_marks(s.skip(k as int))
        } else {
            Seq::empty()
        }
    }
}

/// Whether no line of `s` starts with the mark.
pub open spec fn no_marked_line(s: Seq<char>) -> bool
    decreases s.len(),
{
    if s.len() == 0 {
        true
    } else {
        let k = line_len(s);
        proof {
            lemma_line_len(s);
        }
        !init_mark().is_prefix_of(s.take(k as int)) && if k > 0 {
            no_marked_line(s.skip(k as int))
        } else {
            true
        }
    }
}

proof fn lemma_line_len_no_newline(a: Seq<char>, b: Seq<char>)
    requires
        forall|i: int| 0 <= i < a.len() ==> a[i] != '\n',
    ensures
        line_len(a + b) == a.len() + line_len(b),
    decreases a.len(),
{
    if a.len() > 0 {
        assert((a + b).drop_first() =~= a.drop_first() + b);
        lemma_line_len_no_newline(a.drop_first(), b);
    } else {
        assert(a + b =~= b);
    }
}

proof fn lemma_line_len_of_line(text: Seq<char>, y: Seq<char>)
    requires
        text.len() > 0,
        line_len(text) == text.len() ==> y.len() == 0,
    ensures
        line_len(text.take(line_len(text) as int) + y) == line_len(text),
{
    lemma_line_len(text);
    let k = line_len(text);
    let line = text.take(k as int);
    if k < text.len() {
        assert(text[k - 1] == '\n');
        assert forall|i: int| 0 <= i < k - 1 implies #[trigger] line[i] != '\n' by {}
        assert(line + y =~= line.take(k - 1) + (seq!['\n'] + y));
        assert forall|i: int| 0 <= i < k - 1 implies #[trigger] line.take(k - 1)[i] != '\n' by {}
        lemma_line_len_no_newline(line.take(k - 1), seq!['\n'] + y);
    } else {
        assert(line + y =~= text);
    }
}

/// Commenting out the settings the managed block owns only puts the mark in
/// front of whole lines: taking the marks out gives the text back (for a text
/// with no line that starts with the mark already).
pub proof fn lemma_comment_reversible(text: Seq<char>, top: bool)
    requires
        no_marked_line(text),
    ensures
        remove_marks(comment_managed(text, top)) == text,
    decreases text.len(),
{
    if text.len() == 0 {
        assert(comment_managed(text, top) =~= Seq::<char>::empty());
    } else {
        lemma_line_len(text);
        let k = line_len(text);
        let line = text.take(k as int);
        let rest = text.skip(k as int);
        let t2 = still_top(line, top);
        lemma_comment_reversible(rest, t2);
        let y = comment_managed(rest, t2);
        if k == text.len() {
            assert(rest.len() == 0);
            assert(y =~= Seq::<char>::empty());
        }
        lemma_line_len_of_line(text, y);
        let m = init_mark();
        assert(forall|i: int| 0 <= i < m.len() ==> m[i] != '\n') by {
            reveal_strlit("# (codexSwitch init) ");
        }
        let c = comment_managed(text, top);
        if line_is_managed(line, top) {
            assert(c == m + line + y);
            assert(c =~= m + (line + y));
            lemma_line_len_no_newline(m, line + y);
            assert(line_len(c) == m.len() + k);
            assert(c.take((m.len() + k) as int) =~= m + line);
            assert(m.is_prefix_of(m + line)) by {
                assert((m + line).subrange(0, m.len() as int) =~= m);
            }
            assert((m + line).skip(m.len() as int) =~= line);
            assert(c.skip((m.len() + k) as int) =~= y);
        } else {
            assert(c =~= line + y);
            assert(c.take(k as int) =~= line);
            assert(c.skip(k as int) =~= y);
        }
        assert(line + rest =~= text);
    }
}

} // verus!
