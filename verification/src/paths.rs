//! Paths as text: home expansion, joining, prefixes by whole components, and
//! the Windows extended-length prefix.
//!
//! A path is modelled by the characters of its text. Joining uses `/`, as
//! Unix paths do; prefix tests take the separator as an argument.

use vstd::prelude::*;
use crate::text::{chars_of, string_from, push_chars, push_char, skip_chars, starts_with};

verus! {

/// The extended-length prefix `\\?\`.
pub open spec fn verbatim_prefix() -> Seq<char> {
    seq!['\\', '\\', '?', '\\']
}

/// The extended-length UNC prefix `\\?\UNC\`.
pub open spec fn verbatim_unc_prefix() -> Seq<char> {
    seq!['\\', '\\', '?', '\\', 'U', 'N', 'C', '\\']
}

/// `p` without a leading `\\?\` (and `\\?\UNC\server` shown as `\\server`).
pub open spec fn strip_verbatim_spec(p: Seq<char>) -> Seq<char> {
    if verbatim_unc_prefix().is_prefix_of(p) {
        seq!['\\', '\\'] + p.skip(8)
    } else if verbatim_prefix().is_prefix_of(p) {
        p.skip(4)
    } else {
        p
    }
}

/// Removes the extended-length prefix that Windows tools may add to a path.
pub fn strip_verbatim(p: &Vec<char>) -> (r: Vec<char>)
    ensures
        r@ == strip_verbatim_spec(p@),
{
    let unc: Vec<char> = vec!['\\', '\\', '?', '\\', 'U', 'N', 'C', '\\'];
    let plain: Vec<char> = vec!['\\', '\\', '?', '\\'];
    assert(unc@ == verbatim_unc_prefix());
    assert(plain@ == verbatim_prefix());
    if starts_with(p, &unc) {
        let mut r: Vec<char> = vec!['\\', '\\'];
        let rest = skip_chars(p, 8);
        let mut i: usize = 0;
        while i < rest.len()
            invariant
                i <= rest.len(),
                r@ == seq!['\\', '\\'] + rest@.take(i as int),
            decreases rest.len() - i,
        {
            r.push(rest[i]);
            assert(rest@.take(i + 1) == rest@.take(i as int).push(rest@[i as int]));
            assert(r@ =~= seq!['\\', '\\'] + rest@.take(i + 1));
            i += 1;
        }
        assert(rest@.take(rest@.len() as int) =~= rest@);
        r
    } else if starts_with(p, &plain) {
        skip_chars(p, 4)
    } else {
        let mut r: Vec<char> = Vec::new();
        let mut i: usize = 0;
        while i < p.len()
            invariant
                i <= p.len(),
                r@ == p@.take(i as int),
            decreases p.len() - i,
        {
            r.push(p[i]);
            assert(p@.take(i + 1) == p@.take(i as int).push(p@[i as int]));
            i += 1;
        }
        assert(p@.take(p@.len() as int) =~= p@);
        r
    }
}

/// The component a part between separators makes: none for an empty part
/// or for `.` (but a leading `.` of a relative path stays).
pub open spec fn keep_part(part: Seq<char>, first: bool) -> Seq<Seq<char>> {
    if part.len() == 0 || (part == seq!['.'] && !first) {
        Seq::empty()
    } else {
        seq![part]
    }
}

/// The components of the rest `s` of a path, the current part being `cur`
/// (`first` while no separator has been read).
pub open spec fn comps_from(s: Seq<char>, cur: Seq<char>, first: bool, sep: char) -> Seq<Seq<char>>
    decreases s.len(),
{
    if s.len() == 0 {
        keep_part(cur, first)
    } else if s[0] == sep {
        keep_part(cur, first) + comps_from(s.drop_first(), Seq::empty(), false, sep)
    } else {
        comps_from(s.drop_first(), cur.push(s[0]), first, sep)
    }
}

/// The components of `path` as `Path::components` reads them, the root left
/// out: doubled separators and `.` components are skipped, except a `.`
/// that starts a relative path.
pub open spec fn components(path: Seq<char>, sep: char) -> Seq<Seq<char>> {
    comps_from(path, Seq::empty(), true, sep)
}

/// Whether `path` starts at the root.
pub open spec fn has_root(path: Seq<char>, sep: char) -> bool {
    path.len() > 0 && path[0] == sep
}

/// `items` joined by `sep`.
pub open spec fn joined_by(items: Seq<Seq<char>>, sep: char) -> Seq<char>
    decreases items.len(),
{
    if items.len() == 0 {
        Seq::empty()
    } else if items.len() == 1 {
        items[0]
    } else {
        joined_by(items.drop_last(), sep) + seq![sep] + items.last()
    }
}

/// What is left of `path` after `base`, as `Path::strip_prefix` finds it:
/// `base`'s components start `path`'s (both at the root, or neither); the
/// rest is the remaining components joined by `sep`.
pub open spec fn strip_path_prefix_spec(path: Seq<char>, base: Seq<char>, sep: char) -> Option<
    Seq<char>,
> {
    let pc = components(path, sep);
    let bc = components(base, sep);
    if has_root(path, sep) == has_root(base, sep) && bc.is_prefix_of(pc) {
        Some(joined_by(pc.skip(bc.len() as int), sep))
    } else {
        None
    }
}

/// The components of `path`.
pub fn path_components(path: &Vec<char>, sep: char) -> (r: Vec<Vec<char>>)
    ensures
        r@.map_values(|c: Vec<char>| c@) == components(path@, sep),
{
    let mut out: Vec<Vec<char>> = Vec::new();
    let mut cur: Vec<char> = Vec::new();
    let mut first = true;
    let mut i: usize = 0;
    assert(path@.skip(0) =~= path@);
    while i < path.len()
        invariant
            i <= path.len(),
            components(path@, sep) == out@.map_values(|c: Vec<char>| c@) + comps_from(
                path@.skip(i as int),
                cur@,
                first,
                sep,
            ),
        decreases path.len() - i,
    {
        let ghost rest = path@.skip(i as int);
        assert(rest.drop_first() =~= path@.skip(i + 1));
        assert(rest[0] == path@[i as int]);
        if path[i] == sep {
            let ghost prev = out@.map_values(|c: Vec<char>| c@);
            let dot = cur.len() == 1 && cur[0] == '.';
            proof {
                if cur@.len() == 1 && cur@[0] == '.' {
                    assert(cur@ =~= seq!['.']);
                } else if cur@.len() == 1 {
                    assert(seq!['.'][0] == '.');
                } else {
                    assert(cur@.len() != seq!['.'].len());
                }
            }
            if cur.len() > 0 && !(dot && !first) {
                out.push(cur);
                assert(out@.map_values(|c: Vec<char>| c@) =~= prev + keep_part(
                    out@[out@.len() - 1]@,
                    first,
                ));
            } else {
                assert(keep_part(cur@, first) =~= Seq::<Seq<char>>::empty());
                assert(out@.map_values(|c: Vec<char>| c@) =~= prev + keep_part(cur@, first));
            }
            cur = Vec::new();
            first = false;
            assert(cur@ =~= Seq::<char>::empty());
        } else {
            let ghost before = cur@;
            cur.push(path[i]);
            assert(comps_from(rest, before, first, sep) == comps_from(
                path@.skip(i + 1),
                cur@,
                first,
                sep,
            ));
        }
        i += 1;
    }
    assert(path@.skip(path@.len() as int) =~= Seq::<char>::empty());
    let ghost prev = out@.map_values(|c: Vec<char>| c@);
    let dot = cur.len() == 1 && cur[0] == '.';
    proof {
        if cur@.len() == 1 && cur@[0] == '.' {
            assert(cur@ =~= seq!['.']);
        } else if cur@.len() == 1 {
            assert(seq!['.'][0] == '.');
        } else {
            assert(cur@.len() != seq!['.'].len());
        }
    }
    if cur.len() > 0 && !(dot && !first) {
        let ghost c = cur@;
        out.push(cur);
        assert(out@.map_values(|c: Vec<char>| c@) =~= prev + keep_part(c, first));
    } else {
        assert(keep_part(cur@, first) =~= Seq::<Seq<char>>::empty());
        assert(out@.map_values(|c: Vec<char>| c@) =~= prev + keep_part(cur@, first));
    }
    out
}

/// `path` relative to `base`, by whole components.
pub fn strip_path_prefix(path: &Vec<char>, base: &Vec<char>, sep: char) -> (r: Option<Vec<char>>)
    ensures
        match r {
            Some(v) => strip_path_prefix_spec(path@, base@, sep) == Some(v@),
            None => strip_path_prefix_spec(path@, base@, sep) is None,
        },
{
    let pr = path.len() > 0 && path[0] == sep;
    let br = base.len() > 0 && base[0] == sep;
    if pr != br {
        return None;
    }
    let pc = path_components(path, sep);
    let bc = path_components(base, sep);
    let ghost pv = pc@.map_values(|c: Vec<char>| c@);
    let ghost bv = bc@.map_values(|c: Vec<char>| c@);
    assert(pr == has_root(path@, sep) && br == has_root(base@, sep));
    if bc.len() > pc.len() {
        assert(bv.len() > pv.len());
        return None;
    }
    let mut i: usize = 0;
    while i < bc.len()
        invariant
            i <= bc.len() <= pc.len(),
            pv == pc@.map_values(|c: Vec<char>| c@),
            bv == bc@.map_values(|c: Vec<char>| c@),
            forall|j: int| 0 <= j < i ==> bv[j] == pv[j],
            pv == components(path@, sep),
            bv == components(base@, sep),
            has_root(path@, sep) == has_root(base@, sep),
        decreases bc.len() - i,
    {
        if !crate::text::chars_eq(&bc[i], &pc[i]) {
            proof {
                assert(bv[i as int] != pv[i as int]);
            }
            return None;
        }
        i += 1;
    }
    assert(bv.is_prefix_of(pv));
    let ghost rest = pv.skip(bv.len() as int);
    let mut out: Vec<char> = Vec::new();
    let mut k: usize = bc.len();
    while k < pc.len()
        invariant
            bc.len() <= k <= pc.len(),
            pv == pc@.map_values(|c: Vec<char>| c@),
            rest == pv.skip(bc.len() as int),
            out@ == joined_by(rest.take(k - bc.len()), sep),
        decreases pc.len() - k,
    {
        let ghost prev = out@;
        if k > bc.len() {
            out.push(sep);
        }
        let mut j: usize = 0;
        let ghost mid = out@;
        while j < pc[k].len()
            invariant
                k < pc.len(),
                j <= pc@[k as int].len(),
                out@ == mid + pc@[k as int]@.take(j as int),
            decreases pc@[k as int].len() - j,
        {
            out.push(pc[k][j]);
            assert(pc@[k as int]@.take(j + 1) =~= pc@[k as int]@.take(j as int).push(pc@[k as int]@[j as int]));
            j += 1;
        }
        proof {
            assert(pc@[k as int]@.take(pc@[k as int]@.len() as int) =~= pc@[k as int]@);
            let t = rest.take(k + 1 - bc.len());
            assert(t.drop_last() =~= rest.take(k - bc.len()));
            assert(t.last() == pv[k as int]);
            if k == bc.len() {
                assert(rest.take(0) =~= Seq::<Seq<char>>::empty());
                assert(out@ =~= t[0]);
            } else {
                assert(out@ =~= prev + seq![sep] + t.last());
            }
        }
        k += 1;
    }
    assert(rest.take(pc.len() - bc.len()) =~= rest);
    Some(out)
}

/// `base` joined with `rest` as `PathBuf::join` does on Unix: an absolute
/// `rest` replaces `base`, otherwise one `/` goes between them.
pub open spec fn join_spec(base: Seq<char>, rest: Seq<char>) -> Seq<char> {
    if rest.len() > 0 && rest[0] == '/' {
        rest
    } else if base.len() == 0 {
        rest
    } else if base.last() == '/' {
        base + rest
    } else {
        base + seq!['/'] + rest
    }
}

/// Joins two paths.
pub fn join(base: &str, rest: &str) -> (r: String)
    ensures
        r@ == join_spec(base@, rest@),
{
    let b = chars_of(base);
    let t = chars_of(rest);
    if t.len() > 0 && t[0] == '/' {
        return string_from(&t);
    }
    if b.len() == 0 {
        return string_from(&t);
    }
    let mut s = string_from(&b);
    if b[b.len() - 1] != '/' {
        push_char(&mut s, '/');
    }
    push_chars(&mut s, &t);
    s
}

/// `~` alone is the home directory, `~/rest` lies under it; anything else is
/// a path as written.
pub open spec fn expand_spec(home: Seq<char>, p: Seq<char>) -> Seq<char> {
    if p == seq!['~'] {
        home
    } else if seq!['~', '/'].is_prefix_of(p) {
        join_spec(home, p.skip(2))
    } else {
        p
    }
}

/// Whether expanding `p` needs the home directory.
pub open spec fn mentions_home(p: Seq<char>) -> bool {
    p == seq!['~'] || seq!['~', '/'].is_prefix_of(p)
}

/// Expands a leading `~` or `~/` against `home`. Other paths are returned
/// unchanged.
pub fn expand_in(home: &str, p: &str) -> (r: String)
    ensures
        r@ == expand_spec(home@, p@),
{
    let v = chars_of(p);
    if v.len() == 1 && v[0] == '~' {
        assert(v@ =~= seq!['~']);
        return string_from(&chars_of(home));
    }
    let tl: Vec<char> = vec!['~', '/'];
    if starts_with(&v, &tl) {
        let rest = skip_chars(&v, 2);
        let rest_s = string_from(&rest);
        return join(home, rest_s.as_str());
    }
    proof {
        if v@ == seq!['~'] {
            assert(v@.len() == 1 && v@[0] == '~');
        }
    }
    string_from(&v)
}

} // verus!
