//! Rollout (conversation) files: fork ancestry, the input size of the latest
//! request, where a copy goes, and whether a copy is intact.
//!
//! The files are read outside this library, which receives their lines and
//! bytes.

use vstd::prelude::*;
use crate::text::{
    chars_of, string_from, starts_with, skip_chars, take_chars, find, contains_seq,
    eq_ignore_ascii_case, same_ignoring_case,
};
use crate::paths::{strip_verbatim, strip_verbatim_spec, strip_path_prefix, strip_path_prefix_spec};

verus! {

// ---------------------------------------------------------------------------
// JSON and SHA-256, through `serde_json` and `sha2`
// ---------------------------------------------------------------------------

/// What parsing `text` as JSON (`serde_json::from_str::<Value>`) and
/// following the object keys `path` gives: `None` when `text` is not JSON,
/// `Some(None)` when the value there is missing or not a string.
pub uninterp spec fn json_str_at(text: Seq<char>, path: Seq<Seq<char>>) -> Option<Option<Seq<char>>>;

/// Parses `text` as JSON and reads the string at `path`.
#[verifier::external_body]
fn json_get_str(text: &str, path: &[&str]) -> (r: Result<Option<String>, ()>)
    ensures
        match r {
            Ok(Some(v)) => json_str_at(text@, path@.map_values(|k: &str| k@)) == Some(Some(v@)),
            Ok(None) => json_str_at(text@, path@.map_values(|k: &str| k@)) == Some(
                None::<Seq<char>>,
            ),
            Err(()) => json_str_at(text@, path@.map_values(|k: &str| k@)) is None,
        },
{
    match serde_json::from_str::<serde_json::Value>(text) {
        Ok(v) => Ok(path.iter().fold(&v, |v, k| &v[*k]).as_str().map(|s| s.to_owned())),
        Err(_) => Err(()),
    }
}

/// What parsing `text` as JSON and following the object keys `path` gives as
/// an `i64` (`Value::as_i64`): `None` when `text` is not JSON or the value
/// there is missing or not an integer in range.
pub uninterp spec fn json_i64_at(text: Seq<char>, path: Seq<Seq<char>>) -> Option<i64>;

/// Parses `text` as JSON and reads the integer at `path`.
#[verifier::external_body]
fn json_get_i64(text: &str, path: &[&str]) -> (r: Option<i64>)
    ensures
        r == json_i64_at(text@, path@.map_values(|k: &str| k@)),
{
    match serde_json::from_str::<serde_json::Value>(text) {
        Ok(v) => path.iter().fold(&v, |v, k| &v[*k]).as_i64(),
        Err(_) => None,
    }
}

/// The SHA-256 digest of `data` (`sha2::Sha256`).
pub uninterp spec fn sha256(data: Seq<u8>) -> Seq<u8>;

/// The SHA-256 digest of `data`.
#[verifier::external_body]
fn sha256_digest(data: &[u8]) -> (r: Vec<u8>)
    ensures
        r@ == sha256(data@),
{
    <sha2::Sha256 as sha2::Digest>::digest(data).to_vec()
}

/// The SHA-256 digest of a file's contents, by which a copy is checked.
pub fn digest(data: &[u8]) -> (r: Vec<u8>)
    ensures
        r@ == sha256(data@),
{
    sha256_digest(data)
}

/// Whether two contents have the same SHA-256 digest.
pub fn same_digest(a: &[u8], b: &[u8]) -> (r: bool)
    ensures
        r == (sha256(a@) == sha256(b@)),
{
    let x = digest(a);
    let y = digest(b);
    if x.len() != y.len() {
        return false;
    }
    let mut i: usize = 0;
    while i < x.len()
        invariant
            x.len() == y.len(),
            x@ == sha256(a@),
            y@ == sha256(b@),
            i <= x.len(),
            forall|j: int| 0 <= j < i ==> x@[j] == y@[j],
        decreases x.len() - i,
    {
        if x[i] != y[i] {
            assert(x@[i as int] != y@[i as int]);
            return false;
        }
        i += 1;
    }
    assert(x@ =~= y@);
    true
}

// ---------------------------------------------------------------------------
// Fork ancestry
// ---------------------------------------------------------------------------

/// Why a rollout could not be used.
pub enum RolloutError {
    /// The first line of the rollout is not JSON.
    BadFirstLine,
    /// The chain of forks is longer than any real one (a cycle, likely).
    TooDeep,
}

/// The parent thread id a rollout's first line names: a fork's first line is
/// its `session_meta`, whose payload has `forked_from_id`.
pub open spec fn forked_from_spec(first: Seq<char>) -> Option<Option<Seq<char>>> {
    match json_str_at(first, seq!["type"@]) {
        None => None,
        Some(t) => if t == Some("session_meta"@) {
            match json_str_at(first, seq!["payload"@, "forked_from_id"@]) {
                Some(id) => Some(id),
                None => None,
            }
        } else {
            Some(None)
        },
    }
}

/// A fork only stores the turns after the fork point and replays the rest
/// from its parent's rollout. Returns the id of that parent, if any, from the
/// rollout's first line.
pub fn forked_from(first: &str) -> (r: Result<Option<String>, RolloutError>)
    ensures
        match r {
            Ok(Some(id)) => forked_from_spec(first@) == Some(Some(id@)),
            Ok(None) => forked_from_spec(first@) == Some(None::<Seq<char>>),
            Err(RolloutError::BadFirstLine) => forked_from_spec(first@) is None,
            Err(_) => false,
        },
{
    let type_key: [&str; 1] = ["type"];
    let t = match json_get_str(first, &type_key) {
        Ok(t) => t,
        Err(()) => {
            assert(type_key@.map_values(|k: &str| k@) =~= seq!["type"@]);
            return Err(RolloutError::BadFirstLine);
        },
    };
    assert(type_key@.map_values(|k: &str| k@) =~= seq!["type"@]);
    let is_meta = match &t {
        Some(s) => crate::text::str_eq(s.as_str(), "session_meta"),
        None => false,
    };
    if !is_meta {
        return Ok(None);
    }
    let parent_key: [&str; 2] = ["payload", "forked_from_id"];
    assert(parent_key@.map_values(|k: &str| k@) =~= seq!["payload"@, "forked_from_id"@]);
    match json_get_str(first, &parent_key) {
        Ok(id) => Ok(id),
        Err(()) => Err(RolloutError::BadFirstLine),
    }
}

/// What to do next while collecting a thread's rollout and its ancestors.
pub enum ChainStep {
    /// The last rollout is not a fork: the chain is complete.
    Done,
    /// Look up the parent thread with this id and add its rollout.
    Parent(String),
    /// Too many ancestors to be real.
    TooDeep,
}

/// The most ancestors a chain may have before it is taken for a cycle.
pub const MAX_CHAIN: usize = 64;

/// The next step, given how many rollouts the chain has and the parent the
/// last one names.
pub fn chain_step(len: usize, parent: Option<String>) -> (r: ChainStep)
    ensures
        match parent {
            None => r is Done,
            Some(id) => if len > MAX_CHAIN {
                r is TooDeep
            } else {
                r matches ChainStep::Parent(x) && x@ == id@
            },
        },
{
    match parent {
        None => ChainStep::Done,
        Some(id) => if len > MAX_CHAIN {
            ChainStep::TooDeep
        } else {
            ChainStep::Parent(id)
        },
    }
}

// ---------------------------------------------------------------------------
// Input size of the latest request
// ---------------------------------------------------------------------------

/// Input size of a request.
pub struct Usage {
    pub input_tokens: i64,
}

/// The marker of the lines that may hold a token count.
pub open spec fn token_count_marker() -> Seq<char> {
    "\"token_count\""@
}

/// The input size a rollout line records, if it is a token count line.
pub open spec fn line_usage(line: Seq<char>) -> Option<i64> {
    if contains_seq(line, token_count_marker()) {
        json_i64_at(line, seq!["payload"@, "info"@, "last_token_usage"@, "input_tokens"@])
    } else {
        None
    }
}

/// Reads one line of a rollout: a token count line replaces what was found
/// so far; any other line keeps it. Cheap pre-filter: most lines are large
/// tool outputs or images, and only lines naming `"token_count"` are parsed.
pub fn usage_step(found: Option<Usage>, line: &str) -> (r: Option<Usage>)
    ensures
        match line_usage(line@) {
            Some(n) => r matches Some(u) && u.input_tokens == n,
            None => r == found,
        },
{
    let v = chars_of(line);
    let marker = chars_of("\"token_count\"");
    match find(&v, &marker) {
        None => found,
        Some(_) => {
            let key: [&str; 4] = ["payload", "info", "last_token_usage", "input_tokens"];
            assert(key@.map_values(|k: &str| k@) =~= seq![
                "payload"@,
                "info"@,
                "last_token_usage"@,
                "input_tokens"@,
            ]);
            match json_get_i64(line, &key) {
                Some(n) => Some(Usage { input_tokens: n }),
                None => found,
            }
        },
    }
}

/// What the lines of one rollout say: the last token count line's input size.
pub open spec fn lines_usage(lines: Seq<Seq<char>>) -> Option<i64>
    decreases lines.len(),
{
    if lines.len() == 0 {
        None
    } else {
        match line_usage(lines.last()) {
            Some(n) => Some(n),
            None => lines_usage(lines.drop_last()),
        }
    }
}

/// Reading a rollout line by line with `usage_step`, starting from `None`,
/// ends with what its lines say: one more line either brings its own count
/// or keeps the count of the lines before it.
pub proof fn lemma_lines_usage_push(lines: Seq<Seq<char>>, line: Seq<char>)
    ensures
        lines_usage(lines.push(line)) == match line_usage(line) {
            Some(n) => Some(n),
            None => lines_usage(lines),
        },
        lines_usage(Seq::<Seq<char>>::empty()) is None,
{
    assert(lines.push(line).drop_last() =~= lines);
}

/// Input size of the most recent request, i.e. roughly what the first
/// message after a handoff will send: `per_path[i]` is what the i-th rollout
/// of the chain records; the thread is checked first, then its ancestors.
pub fn last_usage(per_path: &Vec<Option<Usage>>) -> (r: Option<Usage>)
    ensures
        match r {
            Some(u) => exists|k: int|
                0 <= k < per_path.len() && (#[trigger] per_path@[k] matches Some(x)
                    && x.input_tokens == u.input_tokens) && forall|j: int|
                    0 <= j < k ==> per_path@[j] is None,
            None => forall|j: int| 0 <= j < per_path.len() ==> #[trigger] per_path@[j] is None,
        },
{
    let mut i: usize = 0;
    while i < per_path.len()
        invariant
            i <= per_path.len(),
            forall|j: int| 0 <= j < i ==> #[trigger] per_path@[j] is None,
        decreases per_path.len() - i,
    {
        match &per_path[i] {
            Some(u) => {
                return Some(Usage { input_tokens: u.input_tokens });
            },
            None => {},
        }
        i += 1;
    }
    None
}

// ---------------------------------------------------------------------------
// Copies
// ---------------------------------------------------------------------------

/// The outcome of copying a rollout.
pub enum Copied {
    Copied,
    AlreadyPresent,
}

/// `path` relative to `base`. Windows paths are case-insensitive, and the
/// thread database and the configuration may spell the home differently:
/// with `windows`, a base that matches ignoring ASCII case (after removing
/// the `\\?\` prefix and trailing separators) also counts.
pub open spec fn relative_spec(path: Seq<char>, base: Seq<char>, windows: bool) -> Option<Seq<char>> {
    match strip_path_prefix_spec(path, base, '/') {
        Some(rel) => Some(rel),
        None => if !windows {
            None
        } else {
            let p = strip_verbatim_spec(path);
            let b = trim_end_seps(strip_verbatim_spec(base));
            if p.len() > b.len() && eq_ignore_ascii_case(p.take(b.len() as int), b) && (
            p[b.len() as int] == '\\' || p[b.len() as int] == '/') {
                Some(p.skip(b.len() as int + 1))
            } else {
                None
            }
        },
    }
}

/// `s` without trailing `\` or `/`.
pub open spec fn trim_end_seps(s: Seq<char>) -> Seq<char>
    decreases s.len(),
{
    if s.len() > 0 && (s.last() == '\\' || s.last() == '/') {
        trim_end_seps(s.drop_last())
    } else {
        s
    }
}

/// `path` relative to `base`.
pub fn relative(path: &str, base: &str, windows: bool) -> (r: Option<String>)
    ensures
        match r {
            Some(x) => relative_spec(path@, base@, windows) == Some(x@),
            None => relative_spec(path@, base@, windows) is None,
        },
{
    let pv = chars_of(path);
    let bv = chars_of(base);
    match strip_path_prefix(&pv, &bv, '/') {
        Some(rel) => return Some(string_from(&rel)),
        None => {},
    }
    if !windows {
        return None;
    }
    let p = strip_verbatim(&pv);
    let b0 = strip_verbatim(&bv);
    let mut n = b0.len();
    assert(b0@.take(n as int) =~= b0@);
    while n > 0 && (b0[n - 1] == '\\' || b0[n - 1] == '/')
        invariant
            n <= b0.len(),
            trim_end_seps(b0@) == trim_end_seps(b0@.take(n as int)),
        decreases n,
    {
        assert(b0@.take(n as int).drop_last() =~= b0@.take(n - 1));
        n -= 1;
    }
    proof {
        if n == b0.len() {
            assert(b0@.take(n as int) =~= b0@);
        }
    }
    let b = take_chars(&b0, n);
    proof {
        assert(b0@.take(b0@.len() as int) =~= b0@);
        if n > 0 {
            assert(b@.last() == b0@[n - 1]);
        }
        assert(trim_end_seps(b@) == b@);
    }
    if p.len() > n {
        let head = take_chars(&p, n);
        if same_ignoring_case(&head, &b) && (p[n] == '\\' || p[n] == '/') {
            let rest = skip_chars(&p, n + 1);
            return Some(string_from(&rest));
        }
    }
    None
}

} // verus!
