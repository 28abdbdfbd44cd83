//! Sidebar project assignment: which of the app's local projects a thread
//! belongs to, judged from the thread's working directory.
//!
//! The app's state file is read, edited and written outside this library; the
//! projects it lists come in as `LocalProject` values, in the file's order.

use vstd::prelude::*;
use crate::text::{chars_of, string_from, starts_with, chars_eq, opt_view};

verus! {

/// Lower case as `str::to_lowercase` computes it (full Unicode mapping).
pub uninterp spec fn lowercase(s: Seq<char>) -> Seq<char>;

/// `str::to_lowercase`.
#[verifier::external_body]
fn to_lowercase(s: &str) -> (r: String)
    ensures
        r@ == lowercase(s@),
{
    s.to_lowercase()
}

/// A local project of the app: its key in the state file, the `id` and
/// `name` fields when they are strings, and the string entries of `rootPaths`.
pub struct LocalProject {
    pub key: String,
    pub id: Option<String>,
    pub name: Option<String>,
    pub root_paths: Vec<String>,
}

/// The outcome of an assignment.
pub enum Assignment {
    Assigned { project: String },
    /// No project's root contains the thread's working directory.
    NoMatch,
}

/// The path separator of the platform.
pub open spec fn sep_of(windows: bool) -> char {
    if windows {
        '\\'
    } else {
        '/'
    }
}

/// `s` with every `/` turned into `\`.
pub open spec fn backslashed(s: Seq<char>) -> Seq<char> {
    s.map_values(|c: char| if c == '/' { '\\' } else { c })
}

/// `s` without trailing `sep` characters.
pub open spec fn trim_end_sep(s: Seq<char>, sep: char) -> Seq<char>
    decreases s.len(),
{
    if s.len() > 0 && s.last() == sep {
        trim_end_sep(s.drop_last(), sep)
    } else {
        s
    }
}

/// A path in the form used for comparison: on Windows lower case with `\`
/// separators; trailing separators removed unless nothing else is left.
pub open spec fn normalize_spec(path: Seq<char>, windows: bool) -> Seq<char> {
    let sep = sep_of(windows);
    let p = if windows {
        lowercase(backslashed(path))
    } else {
        path
    };
    let t = trim_end_sep(p, sep);
    if t.len() == 0 {
        p
    } else {
        t
    }
}

/// Windows paths compare case-insensitively and may use either separator;
/// the app stores roots like `c:\\Users\\...` while threads record `C:\\...`.
pub fn normalize(path: &str, windows: bool) -> (r: String)
    ensures
        r@ == normalize_spec(path@, windows),
{
    let sep = if windows { '\\' } else { '/' };
    let p: String = if windows {
        let v = chars_of(path);
        let mut w: Vec<char> = Vec::new();
        let mut i: usize = 0;
        while i < v.len()
            invariant
                i <= v.len(),
                w@ == backslashed(v@).take(i as int),
                v@ == path@,
            decreases v.len() - i,
        {
            w.push(if v[i] == '/' { '\\' } else { v[i] });
            assert(backslashed(v@).take(i + 1) =~= backslashed(v@).take(i as int).push(
                backslashed(v@)[i as int],
            ));
            i += 1;
        }
        assert(backslashed(v@).take(v@.len() as int) =~= backslashed(v@));
        let ws = string_from(&w);
        to_lowercase(ws.as_str())
    } else {
        let v = chars_of(path);
        string_from(&v)
    };
    let pv = chars_of(p.as_str());
    let mut n = pv.len();
    assert(pv@.take(n as int) =~= pv@);
    while n > 0 && pv[n - 1] == sep
        invariant
            n <= pv.len(),
            trim_end_sep(pv@, sep) == trim_end_sep(pv@.take(n as int), sep),
        decreases n,
    {
        assert(pv@.take(n as int).drop_last() =~= pv@.take(n - 1));
        n -= 1;
    }
    proof {
        if n > 0 {
            assert(pv@.take(n as int).last() == pv@[n - 1]);
        }
    }
    if n == 0 {
        p
    } else {
        crate::text::string_from_range(&pv, 0, n)
    }
}

/// Whether `path` is `root` or lies inside it, by whole path components.
pub open spec fn within_spec(path: Seq<char>, root: Seq<char>, windows: bool) -> bool {
    let sep = sep_of(windows);
    path == root || (root.is_prefix_of(path) && path.len() > root.len() && (path[root.len() as int]
        == sep || (root.len() > 0 && root.last() == sep)))
}

/// Whether `path` is `root` or lies inside it, by whole path components.
pub fn within(path: &Vec<char>, root: &Vec<char>, windows: bool) -> (r: bool)
    ensures
        r == within_spec(path@, root@, windows),
{
    let sep = if windows { '\\' } else { '/' };
    if chars_eq(path, root) {
        return true;
    }
    starts_with(path, root) && path.len() > root.len() && (path[root.len()] == sep || (root.len()
        > 0 && root[root.len() - 1] == sep))
}

/// How deep a root is. Every root that contains a path is a prefix of it, so
/// among those roots the order by characters is the order by bytes.
pub open spec fn byte_len(s: Seq<char>) -> nat {
    s.len()
}

/// The project id: the `id` field, else the key.
pub open spec fn project_id(p: LocalProject) -> Seq<char> {
    match p.id {
        Some(s) => s@,
        None => p.key@,
    }
}

/// The project name: the `name` field, else the id.
pub open spec fn project_name(p: LocalProject) -> Seq<char> {
    match p.name {
        Some(s) => s@,
        None => project_id(p),
    }
}

/// Every root of every project, in order, as `(id, name, normalized root)`.
pub open spec fn candidates(ps: Seq<LocalProject>, windows: bool) -> Seq<
    (Seq<char>, Seq<char>, Seq<char>),
>
    decreases ps.len(),
{
    if ps.len() == 0 {
        Seq::empty()
    } else {
        let p = ps.last();
        candidates(ps.drop_last(), windows) + p.root_paths@.map_values(
            |r: String| (project_id(p), project_name(p), normalize_spec(r@, windows)),
        )
    }
}

/// What `match_project_in` returns for the candidate roots `cs`: the first
/// candidate with the longest root containing `cwd`.
pub open spec fn is_best_match(
    cs: Seq<(Seq<char>, Seq<char>, Seq<char>)>,
    cwd: Seq<char>,
    windows: bool,
    k: int,
) -> bool {
    &&& 0 <= k < cs.len()
    &&& within_spec(cwd, cs[k].2, windows)
    &&& forall|j: int|
        0 <= j < cs.len() && within_spec(cwd, #[trigger] cs[j].2, windows) ==> {
            &&& byte_len(cs[j].2) <= byte_len(cs[k].2)
            &&& j < k ==> byte_len(cs[j].2) < byte_len(cs[k].2)
        }
}

fn candidate_list(ps: &Vec<LocalProject>, windows: bool) -> (r: Vec<(String, String, String)>)
    ensures
        r@.map_values(|t: (String, String, String)| (t.0@, t.1@, t.2@)) == candidates(
            ps@,
            windows,
        ),
{
    let mut out: Vec<(String, String, String)> = Vec::new();
    let mut i: usize = 0;
    while i < ps.len()
        invariant
            i <= ps.len(),
            out@.map_values(|t: (String, String, String)| (t.0@, t.1@, t.2@)) == candidates(
                ps@.take(i as int),
                windows,
            ),
        decreases ps.len() - i,
    {
        let p = &ps[i];
        let id: String = match &p.id {
            Some(s) => s.clone(),
            None => p.key.clone(),
        };
        let name: String = match &p.name {
            Some(s) => s.clone(),
            None => id.clone(),
        };
        assert(id@ == project_id(ps@[i as int]));
        assert(name@ == project_name(ps@[i as int]));
        let ghost base = out@.map_values(|t: (String, String, String)| (t.0@, t.1@, t.2@));
        let mut j: usize = 0;
        while j < p.root_paths.len()
            invariant
                i < ps.len(),
                j <= p.root_paths.len(),
                p == &ps@[i as int],
                id@ == project_id(*p),
                name@ == project_name(*p),
                out@.map_values(|t: (String, String, String)| (t.0@, t.1@, t.2@)) == base
                    + p.root_paths@.take(j as int).map_values(
                    |r: String| (project_id(*p), project_name(*p), normalize_spec(r@, windows)),
                ),
            decreases p.root_paths.len() - j,
        {
            let root = normalize(p.root_paths[j].as_str(), windows);
            let ghost prev = out@;
            let ghost rv = root@;
            out.push((id.clone(), name.clone(), root));
            proof {
                let f = |t: (String, String, String)| (t.0@, t.1@, t.2@);
                assert(out@.map_values(f) =~= prev.map_values(f).push((id@, name@, rv)));
                let g = |r: String| (project_id(*p), project_name(*p), normalize_spec(r@, windows));
                assert(p.root_paths@.take(j + 1) =~= p.root_paths@.take(j as int).push(
                    p.root_paths@[j as int],
                ));
                assert(p.root_paths@.take(j + 1).map_values(g) =~= p.root_paths@.take(
                    j as int,
                ).map_values(g).push(g(p.root_paths@[j as int])));
                assert(out@.map_values(f) =~= base + p.root_paths@.take(j + 1).map_values(g));
            }
            j += 1;
        }
        proof {
            assert(ps@.take(i + 1).drop_last() =~= ps@.take(i as int));
            assert(ps@.take(i + 1).last() == ps@[i as int]);
            assert(p.root_paths@.take(p.root_paths@.len() as int) =~= p.root_paths@);
        }
        i += 1;
    }
    assert(ps@.take(ps@.len() as int) =~= ps@);
    out
}

/// `(id, name)` of the local project with the longest root that contains
/// `cwd`; the first such root when several are equally long.
pub fn match_project_in(ps: &Vec<LocalProject>, cwd: &str, windows: bool) -> (r: Option<
    (String, String),
>)
    ensures
        ({
            let cs = candidates(ps@, windows);
            let c = normalize_spec(cwd@, windows);
            match r {
                Some((id, name)) => exists|k: int|
                    is_best_match(cs, c, windows, k) && cs[k].0 == id@ && cs[k].1 == name@,
                None => forall|j: int|
                    0 <= j < cs.len() ==> !within_spec(c, #[trigger] cs[j].2, windows),
            }
        }),
{
    let cs = candidate_list(ps, windows);
    let ghost spec_cs = candidates(ps@, windows);
    let ghost f = |t: (String, String, String)| (t.0@, t.1@, t.2@);
    assert(cs@.map_values(f) == spec_cs);
    let c = normalize(cwd, windows);
    let cv = chars_of(c.as_str());
    let mut best: Option<usize> = None;
    let mut best_len: usize = 0;
    let mut i: usize = 0;
    while i < cs.len()
        invariant
            i <= cs.len(),
            spec_cs == cs@.map_values(f),
            f == (|t: (String, String, String)| (t.0@, t.1@, t.2@)),
            cv@ == normalize_spec(cwd@, windows),
            match best {
                Some(k) => k < i && best_len == byte_len(spec_cs[k as int].2) && within_spec(
                    cv@,
                    spec_cs[k as int].2,
                    windows,
                ) && forall|j: int|
                    0 <= j < i && within_spec(cv@, #[trigger] spec_cs[j].2, windows) ==> {
                        &&& byte_len(spec_cs[j].2) <= byte_len(spec_cs[k as int].2)
                        &&& j < k ==> byte_len(spec_cs[j].2) < byte_len(spec_cs[k as int].2)
                    },
                None => forall|j: int|
                    0 <= j < i ==> !within_spec(cv@, #[trigger] spec_cs[j].2, windows),
            },
        decreases cs.len() - i,
    {
        let root = &cs[i].2;
        let rv = chars_of(root.as_str());
        assert(spec_cs[i as int].2 == rv@);
        let len = rv.len();
        if within(&cv, &rv, windows) {
            let better = match best {
                Some(_) => len > best_len,
                None => true,
            };
            if better {
                best = Some(i);
                best_len = len;
            }
        }
        i += 1;
    }
    match best {
        Some(k) => {
            proof {
                assert(is_best_match(spec_cs, cv@, windows, k as int));
            }
            Some((cs[k].0.clone(), cs[k].1.clone()))
        },
        None => None,
    }
}


// ---------------------------------------------------------------------------
// The app's state file, through `serde_json`
// ---------------------------------------------------------------------------

/// A project as the state file lists it: its key, the `id` and `name`
/// fields when they are strings, and each entry of `rootPaths` (`None` for an
/// entry that is not a string).
pub type RawProject = (String, Option<String>, Option<String>, Vec<Option<String>>);

/// The view of a listed project.
pub open spec fn raw_view(r: RawProject) -> (Seq<char>, Option<Seq<char>>, Option<Seq<char>>, Seq<Option<Seq<char>>>) {
    (r.0@, opt_view(r.1), opt_view(r.2), r.3@.map_values(|x: Option<String>| opt_view(x)))
}

/// What parsing `state` as JSON (`serde_json::from_str::<Value>`) gives for
/// its `local-projects` object, entry by entry in the map's order: `None`
/// when `state` is not JSON, no entries when there is no such object.
pub uninterp spec fn state_projects(state: Seq<char>) -> Option<Seq<(Seq<char>, Option<Seq<char>>, Option<Seq<char>>, Seq<Option<Seq<char>>>)>>;

/// Parses the state file and lists its local projects.
#[verifier::external_body]
fn read_state_projects(state: &str) -> (r: Result<Vec<RawProject>, ()>)
    ensures
        match r {
            Ok(v) => state_projects(state@) == Some(v@.map_values(|x: RawProject| raw_view(x))),
            Err(()) => state_projects(state@) is None,
        },
{
    let v: serde_json::Value = serde_json::from_str(state).map_err(|_| ())?;
    let s = |x: &serde_json::Value| x.as_str().map(str::to_owned);
    let ps = v.get("local-projects").and_then(|p| p.as_object()).into_iter().flatten();
    Ok(ps.map(|(k, p)| (k.clone(), s(&p["id"]), s(&p["name"]), p["rootPaths"].as_array().into_iter().flatten().map(s).collect())).collect())
}

/// What parsing `state` as JSON, setting `state[table][key]` to the object of
/// the string `fields` (creating `table` as an empty object when missing) and
/// writing it compactly (`serde_json::to_string`) gives: `None` when `state`
/// is not JSON, or it or its `table` is not an object.
pub uninterp spec fn state_with_entry(state: Seq<char>, table: Seq<char>, key: Seq<char>, fields: Seq<(Seq<char>, Seq<char>)>) -> Option<Seq<char>>;

/// Sets `state[table][key]` to an object of string fields.
#[verifier::external_body]
fn write_state_entry(state: &str, table: &str, key: &str, fields: &Vec<(String, String)>) -> (r: Result<String, ()>)
    ensures
        match r {
            Ok(t) => state_with_entry(state@, table@, key@, fields@.map_values(|f: (String, String)| (f.0@, f.1@))) == Some(t@),
            Err(()) => state_with_entry(state@, table@, key@, fields@.map_values(|f: (String, String)| (f.0@, f.1@))) is None,
        },
{
    let mut v: serde_json::Value = serde_json::from_str(state).map_err(|_| ())?;
    let entry: serde_json::Map<String, serde_json::Value> =
        fields.iter().map(|(k, x)| (k.clone(), serde_json::Value::String(x.clone()))).collect();
    let empty = serde_json::Value::Object(serde_json::Map::new());
    let t = v.as_object_mut().ok_or(())?.entry(table).or_insert(empty);
    t.as_object_mut().ok_or(())?.insert(key.to_owned(), serde_json::Value::Object(entry));
    serde_json::to_string(&v).map_err(|_| ())
}

/// The strings among `s`, in order.
pub open spec fn somes(s: Seq<Option<Seq<char>>>) -> Seq<Seq<char>>
    decreases s.len(),
{
    if s.len() == 0 {
        Seq::empty()
    } else {
        somes(s.drop_last()) + match s.last() {
            Some(x) => seq![x],
            None => Seq::empty(),
        }
    }
}

/// Whether `p` is the local project the state file lists as `raw`: the
/// root paths are its string entries.
pub open spec fn is_listed_project(p: LocalProject, raw: (Seq<char>, Option<Seq<char>>, Option<Seq<char>>, Seq<Option<Seq<char>>>)) -> bool {
    &&& p.key@ == raw.0
    &&& opt_view(p.id) == raw.1
    &&& opt_view(p.name) == raw.2
    &&& p.root_paths@.map_values(|x: String| x@) == somes(raw.3)
}

/// Whether `ps` are the local projects of the state file `state`.
pub open spec fn state_lists(state: Seq<char>, ps: Seq<LocalProject>) -> bool {
    &&& state_projects(state) matches Some(raw)
    &&& raw.len() == ps.len()
    &&& forall|i: int| 0 <= i < ps.len() ==> is_listed_project(#[trigger] ps[i], raw[i])
}

/// The table of the state file that maps threads to projects.
pub open spec fn assignments_table() -> Seq<char> {
    "thread-project-assignments"@
}

/// The entry that assigns a thread to the local project `id`.
pub open spec fn assignment_fields(id: Seq<char>) -> Seq<(Seq<char>, Seq<char>)> {
    seq![("projectKind"@, "local"@), ("projectId"@, id)]
}

/// Why the state file could not be edited.
pub enum AssignError {
    /// The state file is not JSON.
    Unparsable,
    /// It, or its assignments table, is not an object.
    Unexpected,
}

fn project_of(raw: &RawProject) -> (r: LocalProject)
    ensures
        is_listed_project(r, raw_view(*raw)),
{
    let ghost rv = raw_view(*raw).3;
    let mut roots: Vec<String> = Vec::new();
    let mut j: usize = 0;
    while j < raw.3.len()
        invariant
            j <= raw.3.len(),
            rv == raw.3@.map_values(|x: Option<String>| opt_view(x)),
            roots@.map_values(|x: String| x@) == somes(rv.take(j as int)),
        decreases raw.3.len() - j,
    {
        let ghost prev = roots@;
        match &raw.3[j] {
            Some(x) => {
                roots.push(x.clone());
            },
            None => {},
        }
        proof {
            assert(rv.take(j + 1).drop_last() =~= rv.take(j as int));
            assert(rv.take(j + 1).last() == opt_view(raw.3@[j as int]));
            assert(roots@.map_values(|x: String| x@) =~= somes(rv.take(j + 1)));
        }
        j += 1;
    }
    assert(rv.take(rv.len() as int) =~= rv);
    let id = match &raw.1 {
        Some(x) => Some(x.clone()),
        None => None,
    };
    let name = match &raw.2 {
        Some(x) => Some(x.clone()),
        None => None,
    };
    LocalProject { key: raw.0.clone(), id, name, root_paths: roots }
}

/// Assigns `thread_id`, in the app's state file `state`, to the local project
/// with the longest root that contains `cwd` (the first such root on a tie).
/// `Ok(None)` when no root contains it; `Ok(Some((new, name)))` gives the
/// new text of the file and the project's name.
pub fn assign_in_state(state: &str, thread_id: &str, cwd: &str, windows: bool) -> (r: Result<Option<(String, String)>, AssignError>)
    ensures
        match r {
            Err(AssignError::Unparsable) => state_projects(state@) is None,
            Err(AssignError::Unexpected) => exists|ps: Seq<LocalProject>, k: int|
                state_lists(state@, ps) && is_best_match(candidates(ps, windows), normalize_spec(cwd@, windows), windows, k)
                    && state_with_entry(state@, assignments_table(), thread_id@, assignment_fields(candidates(ps, windows)[k].0)) is None,
            Ok(None) => exists|ps: Seq<LocalProject>|
                state_lists(state@, ps) && forall|j: int|
                    0 <= j < candidates(ps, windows).len() ==> !within_spec(
                        normalize_spec(cwd@, windows),
                        #[trigger] candidates(ps, windows)[j].2,
                        windows,
                    ),
            Ok(Some((new, name))) => exists|ps: Seq<LocalProject>, k: int|
                state_lists(state@, ps) && is_best_match(candidates(ps, windows), normalize_spec(cwd@, windows), windows, k)
                    && name@ == candidates(ps, windows)[k].1
                    && state_with_entry(state@, assignments_table(), thread_id@, assignment_fields(candidates(ps, windows)[k].0)) == Some(new@),
        },
{
    let raw = match read_state_projects(state) {
        Ok(v) => v,
        Err(()) => return Err(AssignError::Unparsable),
    };
    let mut ps: Vec<LocalProject> = Vec::new();
    let mut i: usize = 0;
    while i < raw.len()
        invariant
            i <= raw.len(),
            ps.len() == i,
            forall|j: int| 0 <= j < i ==> is_listed_project(#[trigger] ps@[j], raw_view(raw@[j])),
        decreases raw.len() - i,
    {
        ps.push(project_of(&raw[i]));
        i += 1;
    }
    proof {
        let rv = raw@.map_values(|x: RawProject| raw_view(x));
        assert forall|j: int| 0 <= j < ps@.len() implies is_listed_project(#[trigger] ps@[j], rv[j]) by {
            assert(rv[j] == raw_view(raw@[j]));
        }
        assert(state_lists(state@, ps@));
    }
    match match_project_in(&ps, cwd, windows) {
        None => Ok(None),
        Some((id, name)) => {
            let mut fields: Vec<(String, String)> = Vec::new();
            fields.push((string_from(&chars_of("projectKind")), string_from(&chars_of("local"))));
            fields.push((string_from(&chars_of("projectId")), id));
            let ghost fv = fields@.map_values(|f: (String, String)| (f.0@, f.1@));
            assert(fv =~= assignment_fields(fv[1].1));
            match write_state_entry(state, "thread-project-assignments", thread_id, &fields) {
                Ok(t) => Ok(Some((t, name))),
                Err(()) => Err(AssignError::Unexpected),
            }
        },
    }
}

} // verus!
