//! Paths and provider definitions.
//!
//! Everything has a built-in default that matches the documented setup. An
//! optional TOML file overrides individual values; reading and parsing it
//! happens outside this library, which receives its fields as a `FileConfig`.

use vstd::prelude::*;
use crate::text::{chars_of, string_from, push_str, push_char};
use crate::paths::{expand_in, expand_spec, join, join_spec, mentions_home};

verus! {

/// First marker line of the block this tool rewrites in the sidecar's
/// config.toml.
pub const MANAGED_BEGIN: &'static str = "# >>> codexSwitch managed: active provider >>>";

/// Last marker line of the managed block.
pub const MANAGED_END: &'static str = "# <<< codexSwitch managed: active provider <<<";

/// A model provider the sidecar can run on.
pub struct Provider {
    pub name: String,
    pub label: String,
    pub model: String,
    pub catalog: String,
    pub effort: String,
    pub key_file: String,
    /// The provider's API endpoint, for the `[model_providers.<name>]` table
    /// that setup writes; `None` when the user defines that table.
    pub base_url: Option<String>,
    /// Where the model catalog can be downloaded, when the provider
    /// publishes one.
    pub catalog_url: Option<String>,
}

impl Clone for Provider {
    fn clone(&self) -> (r: Self)
        ensures
            r == *self,
    {
        Provider {
            name: self.name.clone(),
            label: self.label.clone(),
            model: self.model.clone(),
            catalog: self.catalog.clone(),
            effort: self.effort.clone(),
            key_file: self.key_file.clone(),
            base_url: match &self.base_url {
                Some(s) => Some(s.clone()),
                None => None,
            },
            catalog_url: match &self.catalog_url {
                Some(s) => Some(s.clone()),
                None => None,
            },
        }
    }
}

/// Where everything lives, and the providers by name.
pub struct Config {
    /// CODEX_HOME of the main Codex app (the handoff source).
    pub source_home: String,
    /// CODEX_HOME of the second (sidecar) instance.
    pub sidecar_home: String,
    /// Electron user-data dir of the sidecar. A distinct dir is what lets a
    /// second instance start next to the main one.
    pub user_data_dir: String,
    /// App bundle launched by `open` (macOS).
    pub app_path: String,
    /// File stem of the app's main executable, used to find the running sidecar.
    pub app_process_name: String,
    /// `codex` binary for the sidecar's app-server; chosen per platform when unset.
    pub codex_bin: Option<String>,
    /// Windows: the app's MSIX package name and its application id.
    pub windows_package: String,
    pub windows_app_id: String,
    /// Windows: where the copy of the package's `codex.exe` is kept.
    pub cache_dir: String,
    /// The providers, sorted by name, each name once.
    pub providers: Vec<Provider>,
}

/// One `[providers.<name>]` table of the configuration file.
pub struct FileProvider {
    pub label: Option<String>,
    pub model: String,
    pub catalog: String,
    pub effort: String,
    pub key_file: String,
}

/// The configuration file's values (all optional).
pub struct FileConfig {
    pub source_home: Option<String>,
    pub sidecar_home: Option<String>,
    pub user_data_dir: Option<String>,
    pub app_path: Option<String>,
    pub app_process_name: Option<String>,
    pub codex_bin: Option<String>,
    pub windows_package: Option<String>,
    pub windows_app_id: Option<String>,
    /// `(name, table)` pairs; TOML makes the names distinct.
    pub providers: Vec<(String, FileProvider)>,
}

impl FileConfig {
    /// A configuration file that sets nothing.
    pub fn empty() -> (r: FileConfig)
        ensures
            r.source_home is None && r.sidecar_home is None && r.user_data_dir is None
                && r.app_path is None && r.app_process_name is None && r.codex_bin is None
                && r.windows_package is None && r.windows_app_id is None && r.providers@.len()
                == 0,
    {
        FileConfig {
            source_home: None,
            sidecar_home: None,
            user_data_dir: None,
            app_path: None,
            app_process_name: None,
            codex_bin: None,
            windows_package: None,
            windows_app_id: None,
            providers: Vec::new(),
        }
    }
}

// ---------------------------------------------------------------------------
// The home directory
// ---------------------------------------------------------------------------

/// The user's home directory (`dirs::home_dir`), as text. It comes from the
/// environment, so nothing is stated of it.
#[verifier::external_body]
pub fn home() -> Option<String> {
    dirs::home_dir().map(|p| p.to_string_lossy().into_owned())
}

/// The user's local data directory (`dirs::data_local_dir`), as text. Which
/// directory it is comes from the environment; a directory it returns is an
/// absolute path (`$XDG_DATA_HOME` only when absolute, else the home joined
/// with `.local/share`; `Library/Application Support` under the home on
/// macOS; the known folder on Windows), so it is never empty.
#[verifier::external_body]
fn data_local_dir() -> (r: Option<String>)
    ensures
        r matches Some(d) ==> d@.len() > 0,
{
    dirs::data_local_dir().map(|p| p.to_string_lossy().into_owned())
}

/// The local data directory the platform reported (`found`), or the home
/// directory where it reported none.
pub fn pick_local_data_dir(found: Option<String>, home: &str) -> (r: String)
    ensures
        r@ == match found {
            Some(d) => d@,
            None => home@,
        },
{
    match found {
        Some(d) => d,
        None => string_from(&chars_of(home)),
    }
}

/// The local data directory, or the home directory where there is none.
/// Which directory the platform reports comes from the environment; what is
/// done with it is `pick_local_data_dir`.
pub fn local_data_dir(home: &str) -> (r: String)
    ensures
        home@.len() > 0 ==> r@.len() > 0,
{
    let found = data_local_dir();
    pick_local_data_dir(found, home)
}

/// Expands a leading `~` or `~/`. Other paths are returned unchanged; the
/// result is `None` only when the home directory is needed and unknown.
pub fn expand(p: &str) -> (r: Option<String>)
    ensures
        !mentions_home(p@) ==> (r matches Some(x) && x@ == p@),
        mentions_home(p@) && r is Some ==> exists|h: Seq<char>| r->0@ == expand_spec(h, p@),
{
    let v = chars_of(p);
    let needs = (v.len() == 1 && v[0] == '~') || (v.len() >= 2 && v[0] == '~' && v[1] == '/');
    proof {
        if needs {
            if v@.len() >= 2 {
                assert(seq!['~', '/'].is_prefix_of(v@));
            } else {
                assert(v@ =~= seq!['~']);
            }
        } else {
            if v@ == seq!['~'] {
                assert(v@.len() == 1);
            }
            if seq!['~', '/'].is_prefix_of(v@) {
                assert(v@[0] == seq!['~', '/'][0] && v@[1] == seq!['~', '/'][1]);
            }
        }
    }
    if !needs {
        let s = string_from(&v);
        return Some(s);
    }
    match home() {
        Some(h) => Some(expand_in(h.as_str(), p)),
        None => None,
    }
}


// ---------------------------------------------------------------------------
// Providers, kept sorted by name
// ---------------------------------------------------------------------------

/// `a < b` in the order of `String`'s `Ord` (by Unicode code point, which is
/// also the order of the UTF-8 bytes).
pub open spec fn lex_lt(a: Seq<char>, b: Seq<char>) -> bool
    decreases a.len(),
{
    if a.len() == 0 {
        b.len() > 0
    } else if b.len() == 0 {
        false
    } else if (a[0] as u32) < (b[0] as u32) {
        true
    } else if (a[0] as u32) > (b[0] as u32) {
        false
    } else {
        lex_lt(a.drop_first(), b.drop_first())
    }
}

proof fn lemma_lex_lt_irrefl(a: Seq<char>)
    ensures
        !lex_lt(a, a),
    decreases a.len(),
{
    if a.len() > 0 {
        lemma_lex_lt_irrefl(a.drop_first());
    }
}

proof fn lemma_lex_total(a: Seq<char>, b: Seq<char>)
    ensures
        a != b ==> lex_lt(a, b) || lex_lt(b, a),
        !(lex_lt(a, b) && lex_lt(b, a)),
    decreases a.len(),
{
    if a.len() > 0 && b.len() > 0 {
        lemma_lex_total(a.drop_first(), b.drop_first());
        if a[0] == b[0] && a.drop_first() == b.drop_first() {
            assert(a =~= seq![a[0]] + a.drop_first());
            assert(b =~= seq![b[0]] + b.drop_first());
        }
        if (a[0] as u32) == (b[0] as u32) {
            vstd::utf8::char_u32_cast(a[0], a[0] as u32);
            vstd::utf8::char_u32_cast(b[0], b[0] as u32);
        }
    } else if a.len() == 0 && b.len() == 0 {
        assert(a =~= b);
    }
}

proof fn lemma_lex_trans(a: Seq<char>, b: Seq<char>, c: Seq<char>)
    requires
        lex_lt(a, b),
        lex_lt(b, c),
    ensures
        lex_lt(a, c),
    decreases a.len(),
{
    if a.len() > 0 && b.len() > 0 && c.len() > 0 && (a[0] as u32) == (b[0] as u32) && (b[0] as u32)
        == (c[0] as u32) {
        lemma_lex_trans(a.drop_first(), b.drop_first(), c.drop_first());
    }
}

/// `a < b` for two names.
pub fn lex_less(a: &Vec<char>, b: &Vec<char>) -> (r: bool)
    ensures
        r == lex_lt(a@, b@),
{
    let mut i: usize = 0;
    assert(a@.skip(0) =~= a@);
    assert(b@.skip(0) =~= b@);
    while i < a.len() && i < b.len()
        invariant
            i <= a.len(),
            i <= b.len(),
            lex_lt(a@, b@) == lex_lt(a@.skip(i as int), b@.skip(i as int)),
        decreases a.len() - i,
    {
        let x = a[i] as u32;
        let y = b[i] as u32;
        assert(a@.skip(i as int)[0] == a@[i as int]);
        assert(b@.skip(i as int)[0] == b@[i as int]);
        if x < y {
            return true;
        }
        if x > y {
            return false;
        }
        assert(a@.skip(i as int).drop_first() =~= a@.skip(i + 1));
        assert(b@.skip(i as int).drop_first() =~= b@.skip(i + 1));
        i += 1;
    }
    i == a.len() && i < b.len()
}

/// Providers sorted strictly by name, so each name occurs once.
pub open spec fn sorted_by_name(ps: Seq<Provider>) -> bool {
    forall|i: int, j: int| 0 <= i < j < ps.len() ==> lex_lt(ps[i].name@, ps[j].name@)
}

/// The first provider named `n`, if any.
pub open spec fn lookup(ps: Seq<Provider>, n: Seq<char>) -> Option<Provider>
    decreases ps.len(),
{
    if ps.len() == 0 {
        None
    } else if ps[0].name@ == n {
        Some(ps[0])
    } else {
        lookup(ps.drop_first(), n)
    }
}

proof fn lemma_lookup_index(ps: Seq<Provider>, n: Seq<char>, k: int)
    requires
        0 <= k < ps.len(),
        ps[k].name@ == n,
        forall|j: int| 0 <= j < k ==> #[trigger] ps[j].name@ != n,
    ensures
        lookup(ps, n) == Some(ps[k]),
    decreases k,
{
    if k > 0 {
        assert forall|j: int| 0 <= j < k - 1 implies #[trigger] ps.drop_first()[j].name@ != n by {
            assert(ps.drop_first()[j] == ps[j + 1]);
        }
        assert(ps[0].name@ != n);
        lemma_lookup_index(ps.drop_first(), n, k - 1);
    }
}

proof fn lemma_lookup_none(ps: Seq<Provider>, n: Seq<char>)
    requires
        forall|j: int| 0 <= j < ps.len() ==> #[trigger] ps[j].name@ != n,
    ensures
        lookup(ps, n) is None,
    decreases ps.len(),
{
    if ps.len() > 0 {
        assert(ps[0].name@ != n);
        assert forall|j: int| 0 <= j < ps.len() - 1 implies #[trigger] ps.drop_first()[j].name@
            != n by {
            assert(ps.drop_first()[j] == ps[j + 1]);
        }
        lemma_lookup_none(ps.drop_first(), n);
    }
}

proof fn lemma_lookup_at(ps: Seq<Provider>, k: int)
    requires
        sorted_by_name(ps),
        0 <= k < ps.len(),
    ensures
        lookup(ps, ps[k].name@) == Some(ps[k]),
{
    let n = ps[k].name@;
    assert forall|j: int| 0 <= j < k implies #[trigger] ps[j].name@ != n by {
        assert(lex_lt(ps[j].name@, ps[k].name@));
        lemma_lex_lt_irrefl(n);
    }
    lemma_lookup_index(ps, n, k);
}

fn name_before(ps: &Vec<Provider>, k: usize, name: &Vec<char>) -> (r: bool)
    requires
        k < ps.len(),
    ensures
        r == lex_lt(ps@[k as int].name@, name@),
{
    let other = chars_of(ps[k].name.as_str());
    lex_less(&other, name)
}

/// Adds `p`, replacing the provider of the same name if there is one.
pub fn upsert(ps: &mut Vec<Provider>, p: Provider)
    requires
        sorted_by_name(old(ps)@),
    ensures
        sorted_by_name(final(ps)@),
        forall|n: Seq<char>| #[trigger]
            lookup(final(ps)@, n) == if n == p.name@ {
                Some(p)
            } else {
                lookup(old(ps)@, n)
            },
{
    let name = chars_of(p.name.as_str());
    let mut k: usize = 0;
    while k < ps.len() && name_before(ps, k, &name)
        invariant
            k <= ps.len(),
            name@ == p.name@,
            forall|j: int| 0 <= j < k ==> lex_lt(#[trigger] ps@[j].name@, p.name@),
        decreases ps.len() - k,
    {
        k += 1;
    }
    let ghost before = ps@;
    let replace = k < ps.len() && crate::text::chars_eq(&chars_of(ps[k].name.as_str()), &name);
    if replace {
        ps.set(k, p);
    } else {
        ps.insert(k, p);
    }
    proof {
        if k < before.len() && !replace {
            lemma_lex_total(before[k as int].name@, p.name@);
            assert(lex_lt(p.name@, before[k as int].name@));
        }
        assert forall|i: int, j: int| 0 <= i < j < ps@.len() implies lex_lt(
            ps@[i].name@,
            ps@[j].name@,
        ) by {
            if replace {
                if i == k {
                    assert(ps@[j] == before[j]);
                    assert(lex_lt(before[k as int].name@, before[j].name@));
                    assert(before[k as int].name@ == p.name@);
                } else if j == k {
                    assert(before[k as int].name@ == p.name@);
                }
            } else {
                if i < k && j == k {
                } else if i == k && j > k {
                    assert(ps@[j] == before[j - 1]);
                    if j - 1 > k {
                        assert(lex_lt(before[k as int].name@, before[j - 1].name@));
                        lemma_lex_trans(p.name@, before[k as int].name@, before[j - 1].name@);
                    }
                } else if i < k && j > k {
                } else if i > k {
                    assert(ps@[i] == before[i - 1] && ps@[j] == before[j - 1]);
                }
            }
        }
        assert forall|n: Seq<char>| #[trigger]
            lookup(ps@, n) == if n == p.name@ {
                Some(p)
            } else {
                lookup(before, n)
            } by {
            if n == p.name@ {
                lemma_lookup_at(ps@, k as int);
            } else {
                if exists|i: int| 0 <= i < before.len() && #[trigger] before[i].name@ == n {
                    let i = choose|i: int| 0 <= i < before.len() && #[trigger] before[i].name@ == n;
                    lemma_lookup_at(before, i);
                    let i2 = if replace || i < k {
                        i
                    } else {
                        i + 1
                    };
                    if replace && i == k {
                        assert(before[k as int].name@ == p.name@);
                    }
                    assert(ps@[i2] == before[i]);
                    lemma_lookup_at(ps@, i2);
                } else {
                    assert forall|i: int| 0 <= i < ps@.len() implies #[trigger] ps@[i].name@ != n by {
                        if !replace && i > k {
                            assert(ps@[i] == before[i - 1]);
                        } else if i != k {
                            assert(ps@[i] == before[i]);
                        }
                    }
                    lemma_lookup_none(ps@, n);
                    lemma_lookup_none(before, n);
                }
            }
        }
    }
}


// ---------------------------------------------------------------------------
// Defaults and loading
// ---------------------------------------------------------------------------

/// Whether `p` is the built-in definition of provider `n` (`zai` or
/// `openrouter`), given the home and sidecar directories.
pub open spec fn is_default_provider(p: Provider, n: Seq<char>, home: Seq<char>, sidecar: Seq<char>) -> bool {
    let keys = join_spec(home, ".codex"@);
    &&& p.name@ == n
    &&& if n == "zai"@ {
        &&& p.label@ == "Z.ai"@
        &&& p.model@ == "glm-5.3-flash"@
        &&& p.catalog@ == join_spec(sidecar, "zai_models.json"@)
        &&& p.effort@ == "high"@
        &&& p.key_file@ == join_spec(keys, "zai.key"@)
        &&& p.base_url matches Some(u) && u@ == "https://api.z.ai/api/v1"@
        &&& p.catalog_url matches Some(u) && u@ == "https://api.z.ai/api/v1/models"@
    } else if n == "openrouter"@ {
        &&& p.label@ == "OpenRouter"@
        &&& p.model@ == "nex-agi/nex-n2.5-pro:free"@
        &&& p.catalog@ == join_spec(sidecar, "model_catalog.json"@)
        &&& p.effort@ == "low"@
        &&& p.key_file@ == join_spec(keys, "openrouter.key"@)
        &&& p.base_url matches Some(u) && u@ == "https://openrouter.ai/api/v1"@
        &&& p.catalog_url is None
    } else {
        false
    }
}

/// Whether `p` is provider `n` as defined by the table `fp` of the
/// configuration file: the label defaults to the name, paths are expanded.
pub open spec fn is_file_provider(p: Provider, n: Seq<char>, fp: FileProvider, home: Seq<char>) -> bool {
    &&& p.name@ == n
    &&& p.label@ == match fp.label {
        Some(l) => l@,
        None => n,
    }
    &&& p.model@ == fp.model@
    &&& p.catalog@ == expand_spec(home, fp.catalog@)
    &&& p.effort@ == fp.effort@
    &&& p.key_file@ == expand_spec(home, fp.key_file@)
    &&& p.base_url is None
    &&& p.catalog_url is None
}

fn owned(s: &str) -> (r: String)
    ensures
        r@ == s@,
{
    string_from(&chars_of(s))
}

/// The built-in providers, sorted by name.
pub fn default_providers(home: &str, sidecar: &str) -> (r: Vec<Provider>)
    ensures
        sorted_by_name(r@),
        r@.len() == 2,
        is_default_provider(r@[0], "openrouter"@, home@, sidecar@),
        is_default_provider(r@[1], "zai"@, home@, sidecar@),
{
    let keys = join(home, ".codex");
    let openrouter = Provider {
        name: owned("openrouter"),
        label: owned("OpenRouter"),
        model: owned("nex-agi/nex-n2.5-pro:free"),
        catalog: join(sidecar, "model_catalog.json"),
        effort: owned("low"),
        key_file: join(keys.as_str(), "openrouter.key"),
        base_url: Some(owned("https://openrouter.ai/api/v1")),
        catalog_url: None,
    };
    let zai = Provider {
        name: owned("zai"),
        label: owned("Z.ai"),
        model: owned("glm-5.3-flash"),
        catalog: join(sidecar, "zai_models.json"),
        effort: owned("high"),
        key_file: join(keys.as_str(), "zai.key"),
        base_url: Some(owned("https://api.z.ai/api/v1")),
        catalog_url: Some(owned("https://api.z.ai/api/v1/models")),
    };
    proof {
        reveal_strlit("openrouter");
        reveal_strlit("zai");
        assert(lex_lt("openrouter"@, "zai"@));
        assert("zai"@ != "openrouter"@);
    }
    let mut v: Vec<Provider> = Vec::new();
    v.push(openrouter);
    v.push(zai);
    v
}

/// The table of the configuration file that defines provider `n`, if any
/// (the last one, were a name given twice).
pub open spec fn file_entry(fps: Seq<(String, FileProvider)>, n: Seq<char>) -> Option<FileProvider>
    decreases fps.len(),
{
    if fps.len() == 0 {
        None
    } else if fps.last().0@ == n {
        Some(fps.last().1)
    } else {
        file_entry(fps.drop_last(), n)
    }
}

/// `value` expanded, or `default` when the file does not set it.
pub open spec fn path_or(value: Option<String>, home: Seq<char>, default: Seq<char>) -> Seq<char> {
    match value {
        Some(v) => expand_spec(home, v@),
        None => default,
    }
}

/// `value`, or `default` when the file does not set it.
pub open spec fn text_or(value: Option<String>, default: Seq<char>) -> Seq<char> {
    match value {
        Some(v) => v@,
        None => default,
    }
}

fn path_or_default(value: &Option<String>, home: &str, default: String) -> (r: String)
    ensures
        r@ == path_or(*value, home@, default@),
{
    match value {
        Some(v) => expand_in(home, v.as_str()),
        None => default,
    }
}

fn text_or_default(value: &Option<String>, default: &str) -> (r: String)
    ensures
        r@ == text_or(*value, default@),
{
    match value {
        Some(v) => v.clone(),
        None => owned(default),
    }
}

/// The sidecar's user-data directory when the file does not set one.
pub open spec fn default_user_data_dir_spec(home: Seq<char>, local: Seq<char>, macos: bool) -> Seq<char> {
    if macos {
        join_spec(home, "Library/Application Support/codex-switch/user-data"@)
    } else {
        join_spec(join_spec(local, "codex-switch"@), "user-data"@)
    }
}

/// The sidecar's user-data directory when the file does not set one. Off
/// macOS the path has no spaces: it travels through cmd.exe and a switch.
pub fn default_user_data_dir(home: &str, local: &str, macos: bool) -> (r: String)
    ensures
        r@ == default_user_data_dir_spec(home@, local@, macos),
{
    if macos {
        join(home, "Library/Application Support/codex-switch/user-data")
    } else {
        let d = join(local, "codex-switch");
        join(d.as_str(), "user-data")
    }
}

/// The app bundle when the file does not set one: the standard location on
/// macOS, nothing elsewhere.
pub open spec fn default_app_path_spec(macos: bool) -> Seq<char> {
    if macos {
        "/Applications/ChatGPT.app"@
    } else {
        Seq::empty()
    }
}

/// The app bundle when the file does not set one.
pub fn default_app_path(macos: bool) -> (r: String)
    ensures
        r@ == default_app_path_spec(macos),
{
    if macos {
        owned("/Applications/ChatGPT.app")
    } else {
        String::new()
    }
}

/// The expanded form of an optional path.
pub fn opt_path(p: &Option<String>, home: &str) -> (r: Option<String>)
    ensures
        match *p {
            Some(v) => r matches Some(x) && x@ == expand_spec(home@, v@),
            None => r is None,
        },
{
    match p {
        Some(v) => Some(expand_in(home, v.as_str())),
        None => None,
    }
}

/// Where the configuration file is: `$CODEX_SWITCH_CONFIG` when set and not
/// empty (expanded), else `~/.config/codex-switch/config.toml`.
pub open spec fn config_path_spec(env: Option<Seq<char>>, home: Seq<char>) -> Seq<char> {
    match env {
        Some(p) => if p.len() > 0 {
            expand_spec(home, p)
        } else {
            join_spec(home, ".config/codex-switch/config.toml"@)
        },
        None => join_spec(home, ".config/codex-switch/config.toml"@),
    }
}

/// Where the configuration file is, given `$CODEX_SWITCH_CONFIG`.
pub fn default_config_path(env: Option<String>, home: &str) -> (r: String)
    ensures
        r@ == config_path_spec(
            match env {
                Some(e) => Some(e@),
                None => None,
            },
            home@,
        ),
{
    match env {
        Some(p) => {
            if p.as_str().unicode_len() > 0 {
                expand_in(home, p.as_str())
            } else {
                join(home, ".config/codex-switch/config.toml")
            }
        },
        None => join(home, ".config/codex-switch/config.toml"),
    }
}

/// What a configuration says of every field, given the file, the home and
/// local data directories and whether this is macOS.
pub open spec fn loaded(cfg: Config, file: FileConfig, home: Seq<char>, local: Seq<char>, macos: bool) -> bool {
    let sidecar = path_or(file.sidecar_home, home, join_spec(home, ".codex-switch"@));
    &&& cfg.source_home@ == path_or(file.source_home, home, join_spec(home, ".codex"@))
    &&& cfg.sidecar_home@ == sidecar
    &&& cfg.user_data_dir@ == path_or(
        file.user_data_dir,
        home,
        default_user_data_dir_spec(home, local, macos),
    )
    &&& cfg.app_path@ == path_or(file.app_path, home, default_app_path_spec(macos))
    &&& cfg.app_process_name@ == text_or(file.app_process_name, "ChatGPT"@)
    &&& match file.codex_bin {
        Some(b) => cfg.codex_bin matches Some(x) && x@ == expand_spec(home, b@),
        None => cfg.codex_bin is None,
    }
    &&& cfg.windows_package@ == text_or(file.windows_package, "OpenAI.Codex"@)
    &&& cfg.windows_app_id@ == text_or(file.windows_app_id, "App"@)
    &&& cfg.cache_dir@ == join_spec(local, "codex-switch"@)
    &&& sorted_by_name(cfg.providers@)
    &&& forall|n: Seq<char>|
        #![trigger lookup(cfg.providers@, n)]
        match file_entry(file.providers@, n) {
            Some(fp) => lookup(cfg.providers@, n) matches Some(p) && is_file_provider(p, n, fp, home),
            None => if n == "zai"@ || n == "openrouter"@ {
                lookup(cfg.providers@, n) matches Some(p) && is_default_provider(p, n, home, sidecar)
            } else {
                lookup(cfg.providers@, n) is None
            },
        }
}

/// A setting the configuration file gives is the loaded value; the default
/// applies only where the file leaves it unset.
pub proof fn lemma_file_settings_win(cfg: Config, file: FileConfig, home: Seq<char>, local: Seq<char>, macos: bool)
    requires
        loaded(cfg, file, home, local, macos),
    ensures
        file.app_process_name matches Some(v) ==> cfg.app_process_name@ == v@,
        file.app_process_name is None ==> cfg.app_process_name@ == "ChatGPT"@,
        file.windows_package matches Some(v) ==> cfg.windows_package@ == v@,
        file.windows_package is None ==> cfg.windows_package@ == "OpenAI.Codex"@,
        file.windows_app_id matches Some(v) ==> cfg.windows_app_id@ == v@,
        file.windows_app_id is None ==> cfg.windows_app_id@ == "App"@,
        file.source_home matches Some(v) ==> cfg.source_home@ == expand_spec(home, v@),
        file.sidecar_home matches Some(v) ==> cfg.sidecar_home@ == expand_spec(home, v@),
        file.user_data_dir matches Some(v) ==> cfg.user_data_dir@ == expand_spec(home, v@),
        file.app_path matches Some(v) ==> cfg.app_path@ == expand_spec(home, v@),
{
}

impl Config {
    /// Builds the configuration from the file's values over the defaults.
    /// `home` and `local` are the home and local data directories.
    pub fn load(file: FileConfig, home: &str, local: &str, macos: bool) -> (r: Config)
        ensures
            loaded(r, file, home@, local@, macos),
    {
        let source_home = path_or_default(&file.source_home, home, join(home, ".codex"));
        let sidecar_home = path_or_default(&file.sidecar_home, home, join(home, ".codex-switch"));
        let user_data_dir = path_or_default(
            &file.user_data_dir,
            home,
            default_user_data_dir(home, local, macos),
        );
        let app_path = path_or_default(&file.app_path, home, default_app_path(macos));
        let app_process_name = text_or_default(&file.app_process_name, "ChatGPT");
        let codex_bin = opt_path(&file.codex_bin, home);
        let windows_package = text_or_default(&file.windows_package, "OpenAI.Codex");
        let windows_app_id = text_or_default(&file.windows_app_id, "App");
        let cache_dir = join(local, "codex-switch");

        let mut providers = default_providers(home, sidecar_home.as_str());
        let ghost defaults = providers@;
        proof {
            reveal_strlit("zai");
            reveal_strlit("openrouter");
            lemma_lookup_at(defaults, 0);
            lemma_lookup_at(defaults, 1);
            assert forall|n: Seq<char>| n != "zai"@ && n != "openrouter"@ implies #[trigger]
                lookup(defaults, n) is None by {
                lemma_lookup_none(defaults, n);
            }
        }
        let mut i: usize = 0;
        while i < file.providers.len()
            invariant
                i <= file.providers.len(),
                sorted_by_name(providers@),
                forall|n: Seq<char>| #[trigger]
                    lookup(providers@, n) == lookup(providers@, n) && match file_entry(
                        file.providers@.take(i as int),
                        n,
                    ) {
                        Some(fp) => lookup(providers@, n) matches Some(p) && is_file_provider(
                            p,
                            n,
                            fp,
                            home@,
                        ),
                        None => lookup(providers@, n) == lookup(defaults, n),
                    },
            decreases file.providers.len() - i,
        {
            let (name, fp) = &file.providers[i];
            let label = match &fp.label {
                Some(l) => l.clone(),
                None => name.clone(),
            };
            let p = Provider {
                name: name.clone(),
                label,
                model: fp.model.clone(),
                catalog: expand_in(home, fp.catalog.as_str()),
                effort: fp.effort.clone(),
                key_file: expand_in(home, fp.key_file.as_str()),
                base_url: None,
                catalog_url: None,
            };
            assert(is_file_provider(p, name@, *fp, home@));
            let ghost prev = providers@;
            upsert(&mut providers, p);
            proof {
                let taken = file.providers@.take(i + 1);
                assert(taken.drop_last() =~= file.providers@.take(i as int));
                assert(taken.last() == file.providers@[i as int]);
                assert forall|n: Seq<char>| #[trigger]
                    lookup(providers@, n) == lookup(providers@, n) && match file_entry(taken, n) {
                        Some(fp) => lookup(providers@, n) matches Some(p) && is_file_provider(
                            p,
                            n,
                            fp,
                            home@,
                        ),
                        None => lookup(providers@, n) == lookup(defaults, n),
                    } by {
                    assert(lookup(prev, n) == lookup(prev, n));
                }
            }
            i += 1;
        }
        assert(file.providers@.take(file.providers@.len() as int) =~= file.providers@);
        proof {
            assert forall|n: Seq<char>| #[trigger]
                lookup(providers@, n) == lookup(providers@, n) && match file_entry(
                    file.providers@,
                    n,
                ) {
                    Some(fp) => lookup(providers@, n) matches Some(p) && is_file_provider(
                        p,
                        n,
                        fp,
                        home@,
                    ),
                    None => if n == "zai"@ || n == "openrouter"@ {
                        lookup(providers@, n) matches Some(p) && is_default_provider(
                            p,
                            n,
                            home@,
                            sidecar_home@,
                        )
                    } else {
                        lookup(providers@, n) is None
                    },
                } by {
                assert(lookup(defaults, n) == lookup(defaults, n));
                if n != "zai"@ && n != "openrouter"@ {
                    assert(lookup(defaults, n) is None);
                }
            }
        }
        Config {
            source_home,
            sidecar_home,
            user_data_dir,
            app_path,
            app_process_name,
            codex_bin,
            windows_package,
            windows_app_id,
            cache_dir,
            providers,
        }
    }

    /// The sidecar's config.toml.
    pub fn sidecar_config(&self) -> (r: String)
        ensures
            r@ == join_spec(self.sidecar_home@, "config.toml"@),
    {
        join(self.sidecar_home.as_str(), "config.toml")
    }

    /// The provider named `name`.
    pub fn provider(&self, name: &str) -> (r: Result<&Provider, ConfigError>)
        requires
            sorted_by_name(self.providers@),
        ensures
            match r {
                Ok(p) => lookup(self.providers@, name@) == Some(*p),
                Err(ConfigError::UnknownProvider { name: n, known }) => lookup(
                    self.providers@,
                    name@,
                ) is None && n@ == name@ && known@.len() == self.providers@.len() && forall|
                    i: int,
                | 0 <= i < known@.len() ==> #[trigger] known@[i]@ == self.providers@[i].name@,
            },
    {
        let target = chars_of(name);
        let mut i: usize = 0;
        while i < self.providers.len()
            invariant
                i <= self.providers.len(),
                target@ == name@,
                forall|j: int| 0 <= j < i ==> #[trigger] self.providers@[j].name@ != name@,
            decreases self.providers.len() - i,
        {
            if crate::text::chars_eq(&chars_of(self.providers[i].name.as_str()), &target) {
                proof {
                    lemma_lookup_index(self.providers@, name@, i as int);
                }
                return Ok(&self.providers[i]);
            }
            i += 1;
        }
        proof {
            lemma_lookup_none(self.providers@, name@);
        }
        let mut known: Vec<String> = Vec::new();
        let mut j: usize = 0;
        while j < self.providers.len()
            invariant
                j <= self.providers.len(),
                known@.len() == j,
                forall|k: int| 0 <= k < j ==> #[trigger] known@[k]@ == self.providers@[k].name@,
            decreases self.providers.len() - j,
        {
            known.push(self.providers[j].name.clone());
            j += 1;
        }
        Err(ConfigError::UnknownProvider { name: owned(name), known })
    }
}

/// Why a configuration request failed.
pub enum ConfigError {
    /// No provider has this name; `known` lists the configured ones.
    UnknownProvider { name: String, known: Vec<String> },
}

/// `items` joined by `sep`.
pub open spec fn joined(items: Seq<Seq<char>>, sep: Seq<char>) -> Seq<char>
    decreases items.len(),
{
    if items.len() == 0 {
        Seq::empty()
    } else if items.len() == 1 {
        items[0]
    } else {
        joined(items.drop_last(), sep) + sep + items.last()
    }
}

/// `items` joined by `sep`.
pub fn join_strings(items: &Vec<String>, sep: &str) -> (r: String)
    ensures
        r@ == joined(items@.map_values(|s: String| s@), sep@),
{
    let ghost views = items@.map_values(|s: String| s@);
    let mut out = String::new();
    let mut i: usize = 0;
    while i < items.len()
        invariant
            i <= items.len(),
            views == items@.map_values(|s: String| s@),
            out@ == joined(views.take(i as int), sep@),
        decreases items.len() - i,
    {
        if i > 0 {
            push_str(&mut out, sep);
        }
        push_str(&mut out, items[i].as_str());
        proof {
            let t = views.take(i + 1);
            assert(t.drop_last() =~= views.take(i as int));
            assert(t.last() == items@[i as int]@);
            if i == 0 {
                assert(views.take(0) =~= Seq::<Seq<char>>::empty());
                assert(out@ =~= items@[0]@);
            }
        }
        i += 1;
    }
    assert(views.take(items@.len() as int) =~= views);
    out
}

impl ConfigError {
    /// The message shown to the user.
    pub fn message(&self) -> (r: String)
        ensures
            match self {
                ConfigError::UnknownProvider { name, known } => r@ == "未知のプロバイダです: "@
                    + name@ + "（設定済み: "@ + joined(known@.map_values(|s: String| s@), ", "@)
                    + "）"@,
            },
    {
        match self {
            ConfigError::UnknownProvider { name, known } => {
                let mut s = String::new();
                push_str(&mut s, "未知のプロバイダです: ");
                push_str(&mut s, name.as_str());
                push_str(&mut s, "（設定済み: ");
                let j = join_strings(known, ", ");
                push_str(&mut s, j.as_str());
                push_str(&mut s, "）");
                s
            },
        }
    }
}

} // verus!
