//! The second ("sidecar") Codex app instance: which process is it, which
//! provider does its config.toml select, and how that selection is rewritten.
//!
//! Processes are listed and files are read and written outside this library;
//! the decisions and the text transformations are here.

use vstd::prelude::*;
use crate::config::{Config, Provider, MANAGED_BEGIN, MANAGED_END};
use crate::text::{
    chars_of, string_from, string_from_range, push_str, push_char, find, occurs_at,
    contains_seq, starts_with, chars_eq, skip_chars,
};
use crate::paths::join;
use crate::text::opt_view;

verus! {

// ---------------------------------------------------------------------------
// TOML, through the `toml` crate
// ---------------------------------------------------------------------------

/// Text that starts with `#` and holds no quote, backslash or control
/// character, such as the markers of the managed block.
pub open spec fn plain_hash_text(m: Seq<char>) -> bool {
    &&& m.len() > 0
    &&& m[0] == '#'
    &&& forall|i: int|
        0 <= i < m.len() ==> #[trigger] m[i] != '"' && m[i] != '\'' && m[i] != '\\' && (m[i]
            as u32) >= 0x20 && (m[i] as u32) != 0x7f
}

/// The TOML string literal the `toml` crate writes for `s`
/// (`toml::Value::String(s).to_string()`).
pub uninterp spec fn toml_string_literal(s: Seq<char>) -> Seq<char>;

/// A TOML string value, quoted and escaped as needed
/// (`toml::Value::String`'s `Display`).
/// The quoted form is the text between quotes, verbatim or with escapes
/// that all start with a backslash: a piece of text that starts with `#` and
/// holds no quote, backslash or control character occurs in the quoted form
/// only where it occurs in `s`.
#[verifier::external_body]
pub(crate) fn toml_str(s: &str) -> (r: String)
    ensures
        r@ == toml_string_literal(s@),
        forall|m: Seq<char>|
            #[trigger] contains_seq(r@, m) && plain_hash_text(m) ==> contains_seq(s@, m),
{
    toml::Value::String(s.to_owned()).to_string()
}

/// What parsing `text` as a TOML table (`toml::from_str::<toml::Table>`)
/// gives for the top-level `key`: `None` when `text` is not valid TOML,
/// `Some(None)` when the key is missing or not a string.
pub uninterp spec fn toml_top_level_str(text: Seq<char>, key: Seq<char>) -> Option<Option<Seq<char>>>;

/// Parses `text` as a TOML table and reads the string at top-level `key`.
/// The `toml` crate writes strings so that they parse back to themselves
/// (`toml_writer` picks a basic or literal form and escapes what the form
/// needs): on the four settings of a managed block, one `key = literal` per
/// line, the provider and the model read back as the strings written.
#[verifier::external_body]
pub(crate) fn toml_get_str(text: &str, key: &str) -> (r: Result<Option<String>, ()>)
    ensures
        match r {
            Ok(Some(v)) => toml_top_level_str(text@, key@) == Some(Some(v@)),
            Ok(None) => toml_top_level_str(text@, key@) == Some(None::<Seq<char>>),
            Err(()) => toml_top_level_str(text@, key@) is None,
        },
        match r {
            Ok(Some(v)) => forall|n: Seq<char>, m: Seq<char>, c: Seq<char>, e: Seq<char>|
                #[trigger] block_body_spec(n, m, c, e) == text@ ==> (key@ == "model_provider"@ ==> v@
                    == n) && (key@ == "model"@ ==> v@ == m),
            _ => forall|n: Seq<char>, m: Seq<char>, c: Seq<char>, e: Seq<char>|
                #[trigger] block_body_spec(n, m, c, e) == text@ ==> key@ != "model_provider"@ && key@
                    != "model"@,
        },
{
    match toml::from_str::<toml::Table>(text) {
        Ok(table) => Ok(table.get(key).and_then(|v| v.as_str()).map(|v| v.to_owned())),
        Err(_) => Err(()),
    }
}

// ---------------------------------------------------------------------------
// The managed block
// ---------------------------------------------------------------------------

/// Why the sidecar's settings could not be read or changed.
pub enum SidecarError {
    /// config.toml has no managed block (`path` is the file).
    NoManagedBlock { path: String },
    /// The managed block is not valid TOML.
    BadManagedBlock,
    /// The provider's API key file is missing or empty.
    EmptyKey { label: String, key_file: String },
}

/// Where the managed block is: the first begin marker, and the first end
/// marker when it comes after it.
pub open spec fn managed_range_spec(text: Seq<char>) -> Option<(int, int)> {
    let b = MANAGED_BEGIN@;
    let e = MANAGED_END@;
    if contains_seq(text, b) && contains_seq(text, e) {
        let s = choose|i: int| occurs_at(text, b, i) && forall|j: int| 0 <= j < i ==> !occurs_at(text, b, j);
        let t = choose|i: int| occurs_at(text, e, i) && forall|j: int| 0 <= j < i ==> !occurs_at(text, e, j);
        if s < t {
            Some((s, t))
        } else {
            None
        }
    } else {
        None
    }
}

/// `(s, t)` is where the first begin marker and the first end marker start.
pub open spec fn is_managed_range(text: Seq<char>, s: int, t: int) -> bool {
    &&& occurs_at(text, MANAGED_BEGIN@, s)
    &&& forall|j: int| 0 <= j < s ==> !occurs_at(text, MANAGED_BEGIN@, j)
    &&& occurs_at(text, MANAGED_END@, t)
    &&& forall|j: int| 0 <= j < t ==> !occurs_at(text, MANAGED_END@, j)
    &&& s < t
}

/// Whether `text` has a managed block.
pub open spec fn has_block(text: Seq<char>) -> bool {
    exists|s: int, t: int| is_managed_range(text, s, t)
}

proof fn lemma_first_unique(text: Seq<char>, m: Seq<char>, a: int, b: int)
    requires
        occurs_at(text, m, a),
        forall|j: int| 0 <= j < a ==> !occurs_at(text, m, j),
        occurs_at(text, m, b),
        forall|j: int| 0 <= j < b ==> !occurs_at(text, m, j),
    ensures
        a == b,
{
    if a < b {
        assert(!occurs_at(text, m, a));
    }
    if b < a {
        assert(!occurs_at(text, m, b));
    }
}

/// The only `#` of either marker is its first character.
pub proof fn lemma_markers_hash_first()
    ensures
        MANAGED_BEGIN@.len() == 46,
        MANAGED_END@.len() == 46,
        MANAGED_BEGIN@[0] == '#',
        MANAGED_END@[0] == '#',
        MANAGED_BEGIN@[2] == '>',
        MANAGED_END@[2] == '<',
        forall|i: int| 1 <= i < 46 ==> #[trigger] MANAGED_BEGIN@[i] != '#',
        forall|i: int| 1 <= i < 46 ==> #[trigger] MANAGED_END@[i] != '#',
{
    reveal_strlit("# >>> codexSwitch managed: active provider >>>");
    reveal_strlit("# <<< codexSwitch managed: active provider <<<");
}

/// The end marker cannot start inside the begin marker.
proof fn lemma_markers_disjoint(text: Seq<char>, s: int, t: int)
    requires
        occurs_at(text, MANAGED_BEGIN@, s),
        occurs_at(text, MANAGED_END@, t),
        s < t,
    ensures
        s + MANAGED_BEGIN@.len() <= t,
        t + MANAGED_END@.len() <= text.len(),
{
    lemma_markers_hash_first();
    if t < s + MANAGED_BEGIN@.len() {
        assert(text.subrange(s, s + 46)[t - s] == text[t]);
        assert(text.subrange(t, t + 46)[0] == text[t]);
        assert(MANAGED_BEGIN@[t - s] != '#');
    }
}

/// Some occurrence of `m` at or before `i` is the first one.
proof fn lemma_first_occurrence(text: Seq<char>, m: Seq<char>, i: int)
    requires
        occurs_at(text, m, i),
    ensures
        exists|k: int|
            0 <= k <= i && occurs_at(text, m, k) && forall|j: int|
                0 <= j < k ==> !occurs_at(text, m, j),
    decreases i,
{
    if exists|j: int| 0 <= j < i && occurs_at(text, m, j) {
        let j = choose|j: int| 0 <= j < i && occurs_at(text, m, j);
        lemma_first_occurrence(text, m, j);
    } else {
        assert(forall|j: int| 0 <= j < i ==> !occurs_at(text, m, j));
    }
}

/// A managed block on its own is found as one, whatever its settings are.
pub proof fn lemma_block_is_found(p: Provider, model: Seq<char>)
    ensures
        has_block(managed_block_spec(p, model)),
{
    let b = MANAGED_BEGIN@;
    let e = MANAGED_END@;
    let text = managed_block_spec(p, model);
    let body = block_body_spec(p.name@, model, p.catalog@, p.effort@);
    lemma_markers_hash_first();
    assert(text == b + body + e);
    assert(text.subrange(0, b.len() as int) =~= b);
    let at = text.len() - e.len();
    assert(text.subrange(at, at + e.len()) =~= e);
    lemma_first_occurrence(text, e, at);
    let t = choose|k: int|
        0 <= k <= at && occurs_at(text, e, k) && forall|j: int| 0 <= j < k ==> !occurs_at(text, e, j);
    if t == 0 {
        assert(text.subrange(0, 46)[2] == text[2]);
        assert(text[2] == b[2]);
    }
    assert(is_managed_range(text, 0, t));
}

/// Text appended after a managed block leaves the block where it is.
pub proof fn lemma_block_kept_by_appending(a: Seq<char>, rest: Seq<char>)
    requires
        has_block(a),
    ensures
        has_block(a + rest),
{
    let (s, t) = choose|s: int, t: int| is_managed_range(a, s, t);
    lemma_markers_disjoint(a, s, t);
    let x = a + rest;
    assert forall|m: Seq<char>, i: int| i + m.len() <= a.len() implies occurs_at(x, m, i) == occurs_at(a, m, i) by {
        if 0 <= i {
            assert(x.subrange(i, i + m.len()) =~= a.subrange(i, i + m.len()));
        }
    }
    assert(is_managed_range(x, s, t));
}

/// The start of the managed block's begin marker and of its end marker.
pub fn managed_range(text: &Vec<char>) -> (r: Option<(usize, usize)>)
    ensures
        match r {
            Some((s, t)) => is_managed_range(text@, s as int, t as int),
            None => !has_block(text@),
        },
{
    let b = chars_of(MANAGED_BEGIN);
    let e = chars_of(MANAGED_END);
    match (find(text, &b), find(text, &e)) {
        (Some(s), Some(t)) => {
            if s < t {
                Some((s, t))
            } else {
                proof {
                    assert forall|x: int, y: int| !is_managed_range(text@, x, y) by {
                        if is_managed_range(text@, x, y) {
                            lemma_first_unique(text@, b@, x, s as int);
                            lemma_first_unique(text@, e@, y, t as int);
                        }
                    }
                }
                None
            }
        },
        _ => None,
    }
}

/// Whether config.toml text has a managed block.
pub fn has_managed_block(text: &str) -> (r: bool)
    ensures
        r == has_block(text@),
{
    let v = chars_of(text);
    managed_range(&v).is_some()
}

/// The four settings inside the managed block, one per line.
pub open spec fn block_body_spec(name: Seq<char>, model: Seq<char>, catalog: Seq<char>, effort: Seq<char>) -> Seq<char> {
    "\nmodel_provider = "@ + toml_string_literal(name) + "\nmodel = "@ + toml_string_literal(model)
        + "\nmodel_catalog_json = "@ + toml_string_literal(catalog)
        + "\nmodel_reasoning_effort = "@ + toml_string_literal(effort) + "\n"@
}

/// The end marker starts with `#` and holds no quote, backslash or control
/// character.
proof fn lemma_end_marker_is_plain()
    ensures
        plain_hash_text(MANAGED_END@),
{
    reveal_strlit("# <<< codexSwitch managed: active provider <<<");
}

/// The managed block for provider `p` running `model`.
pub open spec fn managed_block_spec(p: Provider, model: Seq<char>) -> Seq<char> {
    MANAGED_BEGIN@ + block_body_spec(p.name@, model, p.catalog@, p.effort@) + MANAGED_END@
}

/// The managed block selecting provider `p` and `model`.
pub fn managed_block(p: &Provider, model: &str) -> (r: String)
    ensures
        r@ == managed_block_spec(*p, model@),
        !contains_seq(p.name@, MANAGED_END@) ==> !contains_seq(toml_string_literal(p.name@), MANAGED_END@),
        !contains_seq(model@, MANAGED_END@) ==> !contains_seq(toml_string_literal(model@), MANAGED_END@),
        !contains_seq(p.catalog@, MANAGED_END@) ==> !contains_seq(toml_string_literal(p.catalog@), MANAGED_END@),
        !contains_seq(p.effort@, MANAGED_END@) ==> !contains_seq(toml_string_literal(p.effort@), MANAGED_END@),
{
    proof {
        lemma_end_marker_is_plain();
    }
    let mut s = String::new();
    push_str(&mut s, MANAGED_BEGIN);
    push_str(&mut s, "\nmodel_provider = ");
    push_str(&mut s, toml_str(p.name.as_str()).as_str());
    push_str(&mut s, "\nmodel = ");
    push_str(&mut s, toml_str(model).as_str());
    push_str(&mut s, "\nmodel_catalog_json = ");
    push_str(&mut s, toml_str(p.catalog.as_str()).as_str());
    push_str(&mut s, "\nmodel_reasoning_effort = ");
    push_str(&mut s, toml_str(p.effort.as_str()).as_str());
    push_str(&mut s, "\n");
    push_str(&mut s, MANAGED_END);
    s
}

/// The settings read from the managed block.
pub struct Active {
    pub provider: String,
    pub model: String,
}

/// `text` with the managed block that spans `s..t + END.len()` replaced.
pub open spec fn splice(text: Seq<char>, s: int, t: int, block: Seq<char>) -> Seq<char> {
    text.take(s) + block + text.skip(t + MANAGED_END@.len())
}

/// Whether the managed block of `text` holds exactly `body`.
pub open spec fn holds_block_body(text: Seq<char>, body: Seq<char>) -> bool {
    exists|s: int, t: int|
        is_managed_range(text, s, t) && text.subrange(s + MANAGED_BEGIN@.len(), t) == body
}

/// Rewrites the managed block. Everything else in config.toml is left as
/// is; `path` names the file in the error.
pub fn set_active_text(text: &str, p: &Provider, model: &str, path: &str) -> (r: Result<
    String,
    SidecarError,
>)
    ensures
        match r {
            Ok(new) => exists|s: int, t: int|
                is_managed_range(text@, s, t) && new@ == splice(
                    text@,
                    s,
                    t,
                    managed_block_spec(*p, model@),
                ),
            Err(SidecarError::NoManagedBlock { path: q }) => !has_block(text@) && q@ == path@,
            Err(_) => false,
        },
        has_block(text@) && !contains_seq(p.name@, MANAGED_END@) && !contains_seq(
            model@,
            MANAGED_END@,
        ) && !contains_seq(p.catalog@, MANAGED_END@) && !contains_seq(p.effort@, MANAGED_END@)
            ==> (r matches Ok(new) && holds_block_body(
            new@,
            block_body_spec(p.name@, model@, p.catalog@, p.effort@),
        )),
{
    let v = chars_of(text);
    match managed_range(&v) {
        Some((s, t)) => {
            let block = managed_block(p, model);
            let mut out = string_from_range(&v, 0, s);
            push_str(&mut out, block.as_str());
            proof {
                lemma_markers_disjoint(v@, s as int, t as int);
            }
            let ev = chars_of(MANAGED_END);
            let end_len = ev.len();
            assert(end_len == MANAGED_END@.len());
            assert(t + end_len <= v@.len());
            let vlen = v.len();
            assert(t + end_len <= vlen);
            let after = t + end_len;
            let tail = skip_chars(&v, after);
            crate::text::push_chars(&mut out, &tail);
            assert(v@.subrange(0, s as int) =~= v@.take(s as int));
            proof {
                let new = splice(v@, s as int, t as int, managed_block_spec(*p, model@));
                assert(out@ =~= new);
                if !contains_seq(p.name@, MANAGED_END@) && !contains_seq(model@, MANAGED_END@)
                    && !contains_seq(p.catalog@, MANAGED_END@) && !contains_seq(p.effort@, MANAGED_END@) {
                    lemma_written_block_is_read_back(v@, s as int, t as int, *p, model@);
                    let body = block_body_spec(p.name@, model@, p.catalog@, p.effort@);
                    let t2 = s + MANAGED_BEGIN@.len() + body.len();
                    assert(is_managed_range(out@, s as int, t2));
                    assert(out@.subrange(s + MANAGED_BEGIN@.len(), t2) == body);
                    assert(holds_block_body(out@, body));
                }
            }
            Ok(out)
        },
        None => {
            assert(!has_block(text@));
            Err(SidecarError::NoManagedBlock { path: string_from(&chars_of(path)) })
        },
    }
}

/// Provider and model written in the managed block (empty when absent).
pub open spec fn active_spec(text: Seq<char>, s: int, t: int, provider: Seq<char>, model: Seq<char>) -> bool {
    let body = text.subrange(s + MANAGED_BEGIN@.len(), t);
    &&& toml_top_level_str(body, "model_provider"@) matches Some(pv) && provider == match pv {
        Some(x) => x,
        None => Seq::empty(),
    }
    &&& toml_top_level_str(body, "model"@) matches Some(mv) && model == match mv {
        Some(x) => x,
        None => Seq::empty(),
    }
}

/// Provider and model currently written in the managed block of config.toml
/// text; `path` names the file in the error.
pub fn active(text: &str, path: &str) -> (r: Result<Active, SidecarError>)
    ensures
        match r {
            Ok(a) => exists|s: int, t: int|
                is_managed_range(text@, s, t) && active_spec(text@, s, t, a.provider@, a.model@),
            Err(SidecarError::NoManagedBlock { path: q }) => !has_block(text@) && q@ == path@,
            Err(SidecarError::BadManagedBlock) => exists|s: int, t: int|
                is_managed_range(text@, s, t) && (toml_top_level_str(
                    text@.subrange(s + MANAGED_BEGIN@.len(), t),
                    "model_provider"@,
                ) is None || toml_top_level_str(
                    text@.subrange(s + MANAGED_BEGIN@.len(), t),
                    "model"@,
                ) is None),
            Err(_) => false,
        },
        forall|n: Seq<char>, m: Seq<char>, c: Seq<char>, e: Seq<char>, s: int, t: int|
            #![trigger block_body_spec(n, m, c, e), is_managed_range(text@, s, t)]
            is_managed_range(text@, s, t) && block_body_spec(n, m, c, e) == text@.subrange(
                s + MANAGED_BEGIN@.len(),
                t,
            ) ==> (r matches Ok(a) && a.provider@ == n && a.model@ == m),
{
    let v = chars_of(text);
    match managed_range(&v) {
        Some((s, t)) => {
            proof {
                lemma_markers_disjoint(v@, s as int, t as int);
                assert forall|x: int, y: int| is_managed_range(v@, x, y) implies x == s && y == t by {
                    lemma_first_unique(v@, MANAGED_BEGIN@, x, s as int);
                    lemma_first_unique(v@, MANAGED_END@, y, t as int);
                }
            }
            let begin_len = chars_of(MANAGED_BEGIN).len();
            let body = string_from_range(&v, s + begin_len, t);
            let provider = match toml_get_str(body.as_str(), "model_provider") {
                Ok(Some(x)) => x,
                Ok(None) => String::new(),
                Err(()) => return Err(SidecarError::BadManagedBlock),
            };
            let model = match toml_get_str(body.as_str(), "model") {
                Ok(Some(x)) => x,
                Ok(None) => String::new(),
                Err(()) => return Err(SidecarError::BadManagedBlock),
            };
            Ok(Active { provider, model })
        },
        None => Err(SidecarError::NoManagedBlock { path: string_from(&chars_of(path)) }),
    }
}


/// After the managed block is rewritten with a body in which no end marker
/// starts, the block is found again where it was put, holding exactly that
/// body.
pub proof fn lemma_rewritten_block_is_found(text: Seq<char>, s: int, t: int, body: Seq<char>)
    requires
        is_managed_range(text, s, t),
        forall|j: int| 0 <= j < body.len() ==> !occurs_at(body + MANAGED_END@, MANAGED_END@, j),
    ensures
        ({
            let new = splice(text, s, t, MANAGED_BEGIN@ + body + MANAGED_END@);
            let t2 = s + MANAGED_BEGIN@.len() + body.len();
            &&& is_managed_range(new, s, t2)
            &&& new.subrange(s + MANAGED_BEGIN@.len(), t2) == body
        }),
{
    lemma_markers_hash_first();
    lemma_markers_disjoint(text, s, t);
    let b = MANAGED_BEGIN@;
    let e = MANAGED_END@;
    let pre = text.take(s);
    let post = text.skip(t + e.len());
    let new = pre + (b + body + e) + post;
    let t2 = s + b.len() + body.len();
    assert(new == splice(text, s, t, b + body + e));
    assert forall|i: int| 0 <= i < s implies #[trigger] new[i] == text[i] by {}
    assert forall|i: int| 0 <= i < 46 implies #[trigger] new[s + i] == b[i] by {}
    assert forall|i: int| 0 <= i < body.len() implies #[trigger] new[s + 46 + i] == body[i] by {}
    assert forall|i: int| 0 <= i < 46 implies #[trigger] new[t2 + i] == e[i] by {}
    assert(new.subrange(s, s + 46) =~= b);
    assert(new.subrange(t2, t2 + 46) =~= e);
    assert(new.subrange(s + 46, t2) =~= body);
    assert forall|j: int| 0 <= j < s implies !occurs_at(new, b, j) by {
        if occurs_at(new, b, j) {
            if j + 46 <= s {
                assert(text.subrange(j, j + 46) =~= new.subrange(j, j + 46));
                assert(occurs_at(text, b, j));
            } else {
                assert(new.subrange(j, j + 46)[s - j] == new[s]);
                assert(b[s - j] == new[s]);
                assert(new[s] == b[0]);
            }
        }
    }
    assert forall|j: int| 0 <= j < t2 implies !occurs_at(new, e, j) by {
        if occurs_at(new, e, j) {
            assert(new.subrange(j, j + 46)[0] == new[j]);
            assert(new[j] == '#');
            if j < s {
                if j + 46 <= s {
                    assert(text.subrange(j, j + 46) =~= new.subrange(j, j + 46));
                    assert(occurs_at(text, e, j));
                    assert(j < t);
                } else {
                    assert(new.subrange(j, j + 46)[s - j] == new[s]);
                    assert(new[s] == b[0]);
                }
            } else if j == s {
                assert(new.subrange(j, j + 46)[2] == new[s + 2]);
                assert(new[s + 2] == b[2]);
            } else if j < s + 46 {
                assert(new[s + (j - s)] == b[j - s]);
            } else {
                let k = j - s - 46;
                let be = body + e;
                assert forall|i: int| 0 <= i < 46 implies #[trigger] new.subrange(j, j + 46)[i]
                    == be.subrange(k, k + 46)[i] by {
                    if k + i < body.len() {
                        assert(new[s + 46 + (k + i)] == body[k + i]);
                    } else {
                        assert(new[t2 + (k + i - body.len())] == e[k + i - body.len()]);
                    }
                }
                assert(new.subrange(j, j + 46) =~= be.subrange(k, k + 46));
                assert(occurs_at(be, e, k));
            }
        }
    }
}

/// An occurrence of a marker (which starts with `#` and holds no line break)
/// that starts in `piece` or in the `#`-free `lead` before it lies inside
/// `piece`, when a line break follows it.
proof fn lemma_marker_inside_piece(x: Seq<char>, m: Seq<char>, a: Seq<char>, lead: Seq<char>, piece: Seq<char>, b: Seq<char>, j: int)
    requires
        x == a + lead + piece + b,
        m.len() > 0,
        m[0] == '#',
        forall|i: int| 0 <= i < m.len() ==> #[trigger] m[i] != '\n',
        forall|i: int| 0 <= i < lead.len() ==> #[trigger] lead[i] != '#',
        !contains_seq(piece, m),
        b.len() > 0,
        b[0] == '\n',
        a.len() <= j < a.len() + lead.len() + piece.len(),
    ensures
        !occurs_at(x, m, j),
{
    if occurs_at(x, m, j) {
        assert(x.subrange(j, j + m.len())[0] == x[j]);
        let p0: int = (a.len() + lead.len()) as int;
        if j < p0 {
            assert(x[j] == lead[j - a.len()]);
        } else {
            let end: int = p0 + piece.len() as int;
            if j + m.len() <= end {
                assert(piece.subrange(j - p0, j - p0 + m.len()) =~= x.subrange(j, j + m.len()));
                assert(occurs_at(piece, m, j - p0));
            } else {
                assert(x[end] == b[0]);
                assert(x.subrange(j, j + m.len())[end - j] == x[end]);
            }
        }
    }
}

/// The four settings each start on a line of their own, and the body ends
/// with a line break.
proof fn lemma_body_shape(n: Seq<char>, m: Seq<char>, c: Seq<char>, e: Seq<char>)
    ensures
        forall|i: int| 0 <= i < "\nmodel_provider = "@.len() ==> #[trigger] "\nmodel_provider = "@[i] != '#',
        forall|i: int| 0 <= i < "\nmodel = "@.len() ==> #[trigger] "\nmodel = "@[i] != '#',
        forall|i: int| 0 <= i < "\nmodel_catalog_json = "@.len() ==> #[trigger] "\nmodel_catalog_json = "@[i] != '#',
        forall|i: int| 0 <= i < "\nmodel_reasoning_effort = "@.len() ==> #[trigger] "\nmodel_reasoning_effort = "@[i] != '#',
        "\nmodel = "@.len() > 0 && "\nmodel = "@[0] == '\n',
        "\nmodel_catalog_json = "@.len() > 0 && "\nmodel_catalog_json = "@[0] == '\n',
        "\nmodel_reasoning_effort = "@.len() > 0 && "\nmodel_reasoning_effort = "@[0] == '\n',
        "\n"@.len() == 1 && "\n"@[0] == '\n',
        forall|i: int| 0 <= i < MANAGED_END@.len() ==> #[trigger] MANAGED_END@[i] != '\n',
{
    reveal_strlit("\nmodel_provider = ");
    reveal_strlit("\nmodel = ");
    reveal_strlit("\nmodel_catalog_json = ");
    reveal_strlit("\nmodel_reasoning_effort = ");
    reveal_strlit("\n");
    reveal_strlit("# <<< codexSwitch managed: active provider <<<");
}

/// No end marker starts inside the body of a managed block whose four
/// quoted settings do not contain one.
proof fn lemma_body_has_no_end(n: Seq<char>, m: Seq<char>, c: Seq<char>, e: Seq<char>)
    requires
        !contains_seq(toml_string_literal(n), MANAGED_END@),
        !contains_seq(toml_string_literal(m), MANAGED_END@),
        !contains_seq(toml_string_literal(c), MANAGED_END@),
        !contains_seq(toml_string_literal(e), MANAGED_END@),
    ensures
        ({
            let body = block_body_spec(n, m, c, e);
            forall|j: int| 0 <= j < body.len() ==> !occurs_at(body + MANAGED_END@, MANAGED_END@, j)
        }),
{
    lemma_markers_hash_first();
    lemma_body_shape(n, m, c, e);
    let k1 = "\nmodel_provider = "@;
    let k2 = "\nmodel = "@;
    let k3 = "\nmodel_catalog_json = "@;
    let k4 = "\nmodel_reasoning_effort = "@;
    let nl = "\n"@;
    let l1 = toml_string_literal(n);
    let l2 = toml_string_literal(m);
    let l3 = toml_string_literal(c);
    let l4 = toml_string_literal(e);
    let end = MANAGED_END@;
    let body = block_body_spec(n, m, c, e);
    let x = body + end;
    assert(body == k1 + l1 + k2 + l2 + k3 + l3 + k4 + l4 + nl);
    let e0 = Seq::<char>::empty();
    assert forall|j: int| 0 <= j < body.len() implies !occurs_at(x, end, j) by {
        let a2 = k1 + l1;
        let a3 = a2 + k2 + l2;
        let a4 = a3 + k3 + l3;
        let last = a4 + k4 + l4;
        if j < a2.len() {
            assert(x == e0 + k1 + l1 + (k2 + l2 + k3 + l3 + k4 + l4 + nl + end));
            assert((k2 + l2 + k3 + l3 + k4 + l4 + nl + end)[0] == k2[0]);
            lemma_marker_inside_piece(x, end, e0, k1, l1, k2 + l2 + k3 + l3 + k4 + l4 + nl + end, j);
        } else if j < a3.len() {
            assert(x == a2 + k2 + l2 + (k3 + l3 + k4 + l4 + nl + end));
            assert((k3 + l3 + k4 + l4 + nl + end)[0] == k3[0]);
            lemma_marker_inside_piece(x, end, a2, k2, l2, k3 + l3 + k4 + l4 + nl + end, j);
        } else if j < a4.len() {
            assert(x == a3 + k3 + l3 + (k4 + l4 + nl + end));
            assert((k4 + l4 + nl + end)[0] == k4[0]);
            lemma_marker_inside_piece(x, end, a3, k3, l3, k4 + l4 + nl + end, j);
        } else if j < last.len() {
            assert(x == a4 + k4 + l4 + (nl + end));
            assert((nl + end)[0] == nl[0]);
            lemma_marker_inside_piece(x, end, a4, k4, l4, nl + end, j);
        } else {
            assert(x[j] == '\n');
            if occurs_at(x, end, j) {
                assert(x.subrange(j, j + 46)[0] == x[j]);
            }
        }
    }
}

/// Rewriting the managed block and reading it back: the block that
/// `set_active_text` writes is found again where it was put, and its body is
/// the four settings written, provided none of their quoted forms contains
/// the end marker. On such a text `active` gives back the provider and the
/// model written (see its last clause).
pub proof fn lemma_written_block_is_read_back(text: Seq<char>, s: int, t: int, p: Provider, model: Seq<char>)
    requires
        is_managed_range(text, s, t),
        !contains_seq(toml_string_literal(p.name@), MANAGED_END@),
        !contains_seq(toml_string_literal(model), MANAGED_END@),
        !contains_seq(toml_string_literal(p.catalog@), MANAGED_END@),
        !contains_seq(toml_string_literal(p.effort@), MANAGED_END@),
    ensures
        ({
            let body = block_body_spec(p.name@, model, p.catalog@, p.effort@);
            let new = splice(text, s, t, managed_block_spec(p, model));
            let t2 = s + MANAGED_BEGIN@.len() + body.len();
            &&& is_managed_range(new, s, t2)
            &&& new.subrange(s + MANAGED_BEGIN@.len(), t2) == body
        }),
{
    lemma_body_has_no_end(p.name@, model, p.catalog@, p.effort@);
    lemma_rewritten_block_is_found(text, s, t, block_body_spec(p.name@, model, p.catalog@, p.effort@));
}


// ---------------------------------------------------------------------------
// The sidecar process
// ---------------------------------------------------------------------------

/// `s` with every `"` removed.
pub open spec fn unquoted(s: Seq<char>) -> Seq<char> {
    s.filter(|c: char| c != '"')
}

fn unquote(v: &Vec<char>) -> (r: Vec<char>)
    ensures
        r@ == unquoted(v@),
{
    let mut r: Vec<char> = Vec::new();
    let mut i: usize = 0;
    while i < v.len()
        invariant
            i <= v.len(),
            r@ == unquoted(v@.take(i as int)),
        decreases v.len() - i,
    {
        proof {
            assert(v@.take(i + 1).drop_last() =~= v@.take(i as int));
            reveal_with_fuel(Seq::<_>::filter, 1);
        }
        if v[i] != '"' {
            r.push(v[i]);
        }
        i += 1;
    }
    assert(v@.take(v@.len() as int) =~= v@);
    r
}

/// The switch that marks the sidecar's processes.
pub open spec fn user_data_flag(cfg: Config) -> Seq<char> {
    "--user-data-dir="@ + cfg.user_data_dir@
}

/// Whether a process is the sidecar app itself: the app's executable, run
/// with the sidecar's `--user-data-dir` (quotes ignored), and not an
/// Electron helper (those carry `--type=`).
pub open spec fn is_sidecar_main_spec(exe_stem: Option<Seq<char>>, args: Seq<Seq<char>>, cfg: Config) -> bool {
    &&& exe_stem == Some(cfg.app_process_name@)
    &&& forall|i: int| 0 <= i < args.len() ==> !"--type="@.is_prefix_of(#[trigger] args[i])
    &&& exists|i: int| 0 <= i < args.len() && unquoted(#[trigger] args[i]) == user_data_flag(cfg)
}

/// Electron helpers (renderer, GPU, network...) carry the same
/// `--user-data-dir`; on Windows they even share the main executable. Chromium
/// marks every helper with `--type=`, so only the process without it is the
/// app itself.
pub fn is_sidecar_main(exe_stem: Option<&str>, args: &Vec<String>, cfg: &Config) -> (r: bool)
    ensures
        r == is_sidecar_main_spec(
            match exe_stem {
                Some(s) => Some(s@),
                None => None,
            },
            args@.map_values(|a: String| a@),
            *cfg,
        ),
{
    let ghost views = args@.map_values(|a: String| a@);
    let stem_ok = match exe_stem {
        Some(s) => crate::text::str_eq(s, cfg.app_process_name.as_str()),
        None => false,
    };
    if !stem_ok {
        return false;
    }
    let mut flag = String::new();
    push_str(&mut flag, "--user-data-dir=");
    push_str(&mut flag, cfg.user_data_dir.as_str());
    let fv = chars_of(flag.as_str());
    let helper = chars_of("--type=");
    let mut has_flag = false;
    let mut i: usize = 0;
    while i < args.len()
        invariant
            i <= args.len(),
            views == args@.map_values(|a: String| a@),
            fv@ == user_data_flag(*cfg),
            helper@ == "--type="@,
            forall|j: int| 0 <= j < i ==> !"--type="@.is_prefix_of(#[trigger] views[j]),
            has_flag == exists|j: int| 0 <= j < i && unquoted(#[trigger] views[j]) == fv@,
        decreases args.len() - i,
    {
        let a = chars_of(args[i].as_str());
        assert(views[i as int] == a@);
        if starts_with(&a, &helper) {
            return false;
        }
        if chars_eq(&unquote(&a), &fv) {
            has_flag = true;
        }
        i += 1;
    }
    has_flag
}

/// Whether a key file is usable: it exists and is not empty (`len` is its
/// size when it exists).
pub fn ensure_key(p: &Provider, len: Option<u64>) -> (r: Result<(), SidecarError>)
    ensures
        match r {
            Ok(()) => len matches Some(n) && n > 0,
            Err(SidecarError::EmptyKey { label, key_file }) => !(len matches Some(n) && n > 0)
                && label@ == p.label@ && key_file@ == p.key_file@,
            Err(_) => false,
        },
{
    match len {
        Some(n) => if n > 0 {
            return Ok(());
        },
        None => {},
    }
    Err(SidecarError::EmptyKey { label: p.label.clone(), key_file: p.key_file.clone() })
}

impl SidecarError {
    /// The message shown to the user.
    pub fn message(&self) -> (r: String)
        ensures
            match self {
                SidecarError::NoManagedBlock { path } => r@ == path@
                    + " に管理ブロックがありません。次の2行で囲んだブロックを用意してください:\n  "@
                    + MANAGED_BEGIN@ + "\n  "@ + MANAGED_END@,
                SidecarError::BadManagedBlock => r@ == "管理ブロックを解釈できません"@,
                SidecarError::EmptyKey { label, key_file } => r@ == label@
                    + " の API キーが空です: "@ + key_file@ + "\n  設定例: printf %s '<key>' > "@
                    + key_file@,
            },
    {
        let mut s = String::new();
        match self {
            SidecarError::NoManagedBlock { path } => {
                push_str(&mut s, path.as_str());
                push_str(
                    &mut s,
                    " に管理ブロックがありません。次の2行で囲んだブロックを用意してください:\n  ",
                );
                push_str(&mut s, MANAGED_BEGIN);
                push_str(&mut s, "\n  ");
                push_str(&mut s, MANAGED_END);
            },
            SidecarError::BadManagedBlock => {
                push_str(&mut s, "管理ブロックを解釈できません");
            },
            SidecarError::EmptyKey { label, key_file } => {
                push_str(&mut s, label.as_str());
                push_str(&mut s, " の API キーが空です: ");
                push_str(&mut s, key_file.as_str());
                push_str(&mut s, "\n  設定例: printf %s '<key>' > ");
                push_str(&mut s, key_file.as_str());
            },
        }
        s
    }
}

/// The platforms the tool knows how to drive.
pub enum Platform {
    MacOs,
    Windows,
    Other,
}

/// How the sidecar is stopped, for messages. The Windows app does not quit on
/// a close request (it keeps running in the background), so it is terminated.
pub fn quit_verb(platform: &Platform) -> (r: &'static str)
    ensures
        r@ == match platform {
            Platform::Windows => "強制終了"@,
            _ => "終了"@,
        },
{
    match platform {
        Platform::Windows => "強制終了",
        _ => "終了",
    }
}

/// How to quit the app from its own UI. Closing the window is not enough on
/// either OS: the app keeps running (on Windows, in the notification area).
pub fn quit_howto(platform: &Platform) -> (r: &'static str)
    ensures
        r@ == match platform {
            Platform::MacOs => "第2インスタンスのウィンドウを前面にして ⌘Q（ウィンドウを閉じるだけでは終了しません）"@,
            Platform::Windows => "タスクバーの通知領域にある第2インスタンスのアイコンを右クリックし、一番下の「Exit」を選ぶ（×ボタンで閉じても、通知領域で動き続けます）"@,
            Platform::Other => "アプリのメニューから終了する"@,
        },
{
    match platform {
        Platform::MacOs => "第2インスタンスのウィンドウを前面にして ⌘Q（ウィンドウを閉じるだけでは終了しません）",
        Platform::Windows => "タスクバーの通知領域にある第2インスタンスのアイコンを右クリックし、一番下の「Exit」を選ぶ（×ボタンで閉じても、通知領域で動き続けます）",
        Platform::Other => "アプリのメニューから終了する",
    }
}

/// Where the `codex` binary for the sidecar's app-server comes from.
pub enum CodexBin {
    /// This path.
    Path(String),
    /// A copy of the Windows package's binary, made by the caller.
    PackageCopy,
}

/// The binary bundled inside the macOS app.
pub open spec fn bundled_codex_spec(cfg: Config) -> Seq<char> {
    crate::paths::join_spec(cfg.app_path@, "Contents/Resources/codex"@)
}

/// The binary bundled inside the macOS app.
pub fn bundled_codex(cfg: &Config) -> (r: String)
    ensures
        r@ == bundled_codex_spec(*cfg),
{
    join(cfg.app_path.as_str(), "Contents/Resources/codex")
}

/// The `codex` binary for the sidecar's app-server. An explicit `codex_bin`
/// setting always wins. On macOS it is the binary bundled with the app (so the
/// sidecar's state is written by the version the GUI reads it with) when
/// `bundled_present`, else `codex` from the PATH; on Windows a copy of the
/// package's binary; elsewhere `codex`.
pub fn codex_bin(cfg: &Config, platform: &Platform, bundled_present: bool) -> (r: CodexBin)
    ensures
        match cfg.codex_bin {
            Some(b) => r matches CodexBin::Path(x) && x@ == b@,
            None => match platform {
                Platform::MacOs => r matches CodexBin::Path(x) && x@ == if bundled_present {
                    bundled_codex_spec(*cfg)
                } else {
                    "codex"@
                },
                Platform::Windows => r is PackageCopy,
                Platform::Other => r matches CodexBin::Path(x) && x@ == "codex"@,
            },
        },
{
    match &cfg.codex_bin {
        Some(b) => CodexBin::Path(b.clone()),
        None => match platform {
            Platform::MacOs => if bundled_present {
                CodexBin::Path(bundled_codex(cfg))
            } else {
                CodexBin::Path(string_from(&chars_of("codex")))
            },
            Platform::Windows => CodexBin::PackageCopy,
            Platform::Other => CodexBin::Path(string_from(&chars_of("codex"))),
        },
    }
}

/// The arguments of `/usr/bin/open` that start the sidecar on macOS: a new
/// instance with its own CODEX_HOME and user data.
pub open spec fn open_args_spec(cfg: Config) -> Seq<Seq<char>> {
    seq![
        "-n"@,
        "--env"@,
        "CODEX_HOME="@ + cfg.sidecar_home@,
        "--env"@,
        "CODEX_ELECTRON_USER_DATA_PATH="@ + cfg.user_data_dir@,
        cfg.app_path@,
        "--args"@,
        "--user-data-dir="@ + cfg.user_data_dir@,
    ]
}

fn concat2(a: &str, b: &str) -> (r: String)
    ensures
        r@ == a@ + b@,
{
    let mut s = String::new();
    push_str(&mut s, a);
    push_str(&mut s, b);
    s
}

/// The arguments of `/usr/bin/open` that start the sidecar on macOS.
pub fn open_args(cfg: &Config) -> (r: Vec<String>)
    ensures
        r@.map_values(|a: String| a@) == open_args_spec(*cfg),
{
    let mut v: Vec<String> = Vec::new();
    v.push(concat2("-n", ""));
    v.push(concat2("--env", ""));
    v.push(concat2("CODEX_HOME=", cfg.sidecar_home.as_str()));
    v.push(concat2("--env", ""));
    v.push(concat2("CODEX_ELECTRON_USER_DATA_PATH=", cfg.user_data_dir.as_str()));
    v.push(cfg.app_path.clone());
    v.push(concat2("--args", ""));
    v.push(concat2("--user-data-dir=", cfg.user_data_dir.as_str()));
    proof {
        assert("-n"@ + ""@ =~= "-n"@) by { reveal_strlit(""); }
        assert("--env"@ + ""@ =~= "--env"@) by { reveal_strlit(""); }
        assert("--args"@ + ""@ =~= "--args"@) by { reveal_strlit(""); }
        assert(v@.map_values(|a: String| a@) =~= open_args_spec(*cfg));
    }
    v
}


/// What a launch does, given whether the sidecar runs and what it runs.
pub enum LaunchAction {
    /// It is stopped: select the provider and model, then start it.
    Start,
    /// It runs what was asked for: bring its window to the front.
    Show,
    /// It runs something else: stop, since providers are read at startup.
    Refuse,
}

/// What a launch of `provider` / `model` does: start a stopped sidecar, show
/// one that already runs it, refuse to touch one that runs something else.
pub fn launch_action(running: bool, active: &Active, provider: &str, model: &str) -> (r: LaunchAction)
    ensures
        match r {
            LaunchAction::Start => !running,
            LaunchAction::Show => running && active.provider@ == provider@ && active.model@ == model@,
            LaunchAction::Refuse => running && !(active.provider@ == provider@ && active.model@
                == model@),
        },
{
    if !running {
        LaunchAction::Start
    } else if crate::text::str_eq(active.provider.as_str(), provider) && crate::text::str_eq(
        active.model.as_str(),
        model,
    ) {
        LaunchAction::Show
    } else {
        LaunchAction::Refuse
    }
}

/// The provider and model a launch or a handoff asks for: those named on
/// the command line; without a provider, the one the sidecar runs now; without
/// a model, the one the sidecar runs now when no provider was named (and it
/// has one), else the provider's default model.
pub fn launch_target<'a>(cfg: &'a Config, active: &Active, provider: &Option<String>, model: &Option<String>) -> (r: Result<(&'a Provider, String), crate::config::ConfigError>)
    requires
        crate::config::sorted_by_name(cfg.providers@),
    ensures
        ({
            let name = match provider {
                Some(n) => n@,
                None => active.provider@,
            };
            match r {
                Ok((p, m)) => crate::config::lookup(cfg.providers@, name) == Some(*p) && m@ == match model {
                    Some(x) => x@,
                    None => if provider is None && active.model@.len() > 0 {
                        active.model@
                    } else {
                        p.model@
                    },
                },
                Err(crate::config::ConfigError::UnknownProvider { name: n, known }) => crate::config::lookup(
                    cfg.providers@,
                    name,
                ) is None && n@ == name && known@.len() == cfg.providers@.len() && forall|i: int|
                    0 <= i < known@.len() ==> #[trigger] known@[i]@ == cfg.providers@[i].name@,
            }
        }),
{
    let name: &str = match provider {
        Some(n) => n.as_str(),
        None => active.provider.as_str(),
    };
    let p = match cfg.provider(name) {
        Ok(p) => p,
        Err(e) => return Err(e),
    };
    let m = match model {
        Some(x) => x.clone(),
        None => if provider.is_none() && active.model.as_str().unicode_len() > 0 {
            active.model.clone()
        } else {
            p.model.clone()
        },
    };
    Ok((p, m))
}


/// The file stem a process is known by: its executable's, else that of its
/// first argument (when the executable cannot be read).
pub fn process_stem(exe_stem: Option<String>, first_arg_stem: Option<String>) -> (r: Option<String>)
    ensures
        opt_view(r) == match exe_stem {
            Some(s) => Some(s@),
            None => opt_view(first_arg_stem),
        },
{
    match exe_stem {
        Some(s) => Some(s),
        None => first_arg_stem,
    }
}

/// What to do while waiting for a launched sidecar to show up.
pub enum LaunchWait {
    /// It runs.
    Ready,
    /// Look again after this many milliseconds.
    Sleep(u64),
    /// It did not show up in time.
    GiveUp,
}

/// How long a launch is waited for, in milliseconds.
pub const LAUNCH_WAIT_MS: u64 = 30000;

/// The step of waiting for a launched sidecar, `elapsed_ms` after the launch:
/// give up once the time is over, else it is ready when it runs, else look
/// again after half a second.
pub fn launch_wait_step(elapsed_ms: u64, running: bool) -> (r: LaunchWait)
    ensures
        r == (if elapsed_ms >= LAUNCH_WAIT_MS {
            LaunchWait::GiveUp
        } else if running {
            LaunchWait::Ready
        } else {
            LaunchWait::Sleep(500)
        }),
{
    if elapsed_ms >= LAUNCH_WAIT_MS {
        LaunchWait::GiveUp
    } else if running {
        LaunchWait::Ready
    } else {
        LaunchWait::Sleep(500)
    }
}

} // verus!
