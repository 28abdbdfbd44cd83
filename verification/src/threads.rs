//! Threads (conversations) of a Codex home: how they are labelled, how a
//! query is matched against the thread database, and which database file is
//! current. The database itself is read outside this library.

use vstd::prelude::*;
use crate::text::{
    chars_of, push_char, push_chars, push_str, string_from, trim, trim_range, concat_map,
    lemma_concat_map_step, starts_with, ends_with, skip_chars,
};

verus! {

/// A thread as recorded in the thread database.
pub struct Thread {
    pub id: String,
    /// Explicit thread name; empty for untitled threads.
    pub name: String,
    pub preview: String,
    pub title: String,
    pub cwd: String,
    pub model: String,
    pub provider: String,
    pub rollout: String,
    pub updated_ms: i64,
}

/// The first line of `s` that is not blank, trimmed; `cur` holds the part of
/// the current line read so far.
pub open spec fn first_text_line_from(s: Seq<char>, cur: Seq<char>) -> Option<Seq<char>>
    decreases s.len(),
{
    if s.len() == 0 || s[0] == '\n' {
        if trim(cur).len() > 0 {
            Some(trim(cur))
        } else if s.len() == 0 {
            None
        } else {
            first_text_line_from(s.drop_first(), Seq::empty())
        }
    } else {
        first_text_line_from(s.drop_first(), cur.push(s[0]))
    }
}

/// The first line of `s` that is not blank, trimmed.
pub open spec fn first_text_line(s: Seq<char>) -> Option<Seq<char>> {
    first_text_line_from(s, Seq::empty())
}

/// The first line of `s` that is not blank, trimmed.
pub fn first_line(s: &str) -> (r: Option<Vec<char>>)
    ensures
        match r {
            Some(v) => first_text_line(s@) == Some(v@),
            None => first_text_line(s@) is None,
        },
{
    let v = chars_of(s);
    let mut start: usize = 0;
    let mut i: usize = 0;
    assert(v@.skip(0) =~= v@);
    assert(v@.subrange(0, 0) =~= Seq::<char>::empty());
    while i < v.len()
        invariant
            v@ == s@,
            start <= i <= v.len(),
            first_text_line(s@) == first_text_line_from(
                v@.skip(i as int),
                v@.subrange(start as int, i as int),
            ),
        decreases v.len() - i,
    {
        assert(v@.skip(i as int)[0] == v@[i as int]);
        assert(v@.skip(i as int).drop_first() =~= v@.skip(i + 1));
        if v[i] == '\n' {
            let t = trim_range(&v, start, i);
            if t.len() > 0 {
                return Some(t);
            }
            start = i + 1;
            assert(v@.subrange(start as int, start as int) =~= Seq::<char>::empty());
        } else {
            assert(v@.subrange(start as int, i + 1) =~= v@.subrange(start as int, i as int).push(
                v@[i as int],
            ));
        }
        i += 1;
    }
    assert(v@.skip(i as int) =~= Seq::<char>::empty());
    let t = trim_range(&v, start, i);
    if t.len() > 0 {
        Some(t)
    } else {
        None
    }
}

/// `s` cut to `max` characters; a cut string ends with `…`.
pub open spec fn truncate_spec(s: Seq<char>, max: nat) -> Seq<char> {
    if s.len() <= max {
        s
    } else {
        s.take(max as int).push('…')
    }
}

/// Cuts `s` to at most `max` characters, marking the cut with `…`.
pub fn truncate(s: &str, max: usize) -> (r: String)
    ensures
        r@ == truncate_spec(s@, max as nat),
{
    let v = chars_of(s);
    if v.len() <= max {
        string_from(&v)
    } else {
        let mut t = crate::text::string_from_range(&v, 0, max);
        assert(v@.subrange(0, max as int) =~= v@.take(max as int));
        push_char(&mut t, '…');
        t
    }
}

/// One-line label for listings: the first non-blank line of the name, the
/// preview or the title (in that order), cut to 60 characters; the id when
/// all three are blank.
pub open spec fn label_spec(name: Seq<char>, preview: Seq<char>, title: Seq<char>, id: Seq<char>) -> Seq<char> {
    match first_text_line(name) {
        Some(l) => truncate_spec(l, 60),
        None => match first_text_line(preview) {
            Some(l) => truncate_spec(l, 60),
            None => match first_text_line(title) {
                Some(l) => truncate_spec(l, 60),
                None => id,
            },
        },
    }
}

impl Thread {
    /// One-line label for listings. Untitled threads fall back to the first
    /// line of their opening message.
    pub fn label(&self) -> (r: String)
        ensures
            r@ == label_spec(self.name@, self.preview@, self.title@, self.id@),
    {
        let found = match first_line(self.name.as_str()) {
            Some(l) => Some(l),
            None => match first_line(self.preview.as_str()) {
                Some(l) => Some(l),
                None => first_line(self.title.as_str()),
            },
        };
        match found {
            Some(l) => {
                let s = string_from(&l);
                truncate(s.as_str(), 60)
            },
            None => self.id.clone(),
        }
    }
}

/// Whether `c` is an ASCII hexadecimal digit.
pub open spec fn is_hex(c: char) -> bool {
    ('0' <= c <= '9') || ('a' <= c <= 'f') || ('A' <= c <= 'F')
}

/// Whether `s` is a UUID in its hyphenated form: groups of 8, 4, 4, 4 and 12
/// hexadecimal digits joined by `-`.
pub open spec fn is_uuid_spec(s: Seq<char>) -> bool {
    &&& s.len() == 36
    &&& forall|i: int|
        0 <= i < 36 ==> if i == 8 || i == 13 || i == 18 || i == 23 {
            s[i] == '-'
        } else {
            is_hex(#[trigger] s[i])
        }
}

/// Whether `s` is a thread id rather than a title fragment.
pub fn is_uuid(s: &str) -> (r: bool)
    ensures
        r == is_uuid_spec(s@),
{
    let v = chars_of(s);
    if v.len() != 36 {
        return false;
    }
    let mut i: usize = 0;
    while i < 36
        invariant
            v@ == s@,
            v.len() == 36,
            i <= 36,
            forall|j: int|
                0 <= j < i ==> if j == 8 || j == 13 || j == 18 || j == 23 {
                    v@[j] == '-'
                } else {
                    is_hex(#[trigger] v@[j])
                },
        decreases 36 - i,
    {
        let c = v[i];
        if i == 8 || i == 13 || i == 18 || i == 23 {
            if c != '-' {
                assert(!is_uuid_spec(s@));
                return false;
            }
        } else {
            if !(('0' <= c && c <= '9') || ('a' <= c && c <= 'f') || ('A' <= c && c <= 'F')) {
                assert(!is_hex(v@[i as int]));
                return false;
            }
        }
        i += 1;
    }
    true
}

/// What one character becomes in a `LIKE` pattern with `\` as the escape.
pub open spec fn like_piece(c: char) -> Seq<char> {
    if c == '\\' || c == '%' || c == '_' {
        seq!['\\', c]
    } else {
        seq![c]
    }
}

/// `s` with the `LIKE` wildcards and the escape character escaped.
pub open spec fn escape_like_spec(s: Seq<char>) -> Seq<char> {
    concat_map(s, |c: char| like_piece(c))
}

/// The literal text a `LIKE` pattern without wildcards matches, reading `\x`
/// as `x`; `None` for a pattern with an unescaped wildcard or a dangling `\`.
pub open spec fn like_literal(p: Seq<char>) -> Option<Seq<char>>
    decreases p.len(),
{
    if p.len() == 0 {
        Some(Seq::empty())
    } else if p[0] == '\\' {
        if p.len() >= 2 {
            match like_literal(p.skip(2)) {
                Some(r) => Some(seq![p[1]] + r),
                None => None,
            }
        } else {
            None
        }
    } else if p[0] == '%' || p[0] == '_' {
        None
    } else {
        match like_literal(p.drop_first()) {
            Some(r) => Some(seq![p[0]] + r),
            None => None,
        }
    }
}

/// An escaped query matches exactly its own text: no character of it acts as
/// a wildcard.
pub proof fn lemma_escape_like_literal(s: Seq<char>)
    ensures
        like_literal(escape_like_spec(s)) == Some(s),
    decreases s.len(),
{
    let f = |c: char| like_piece(c);
    if s.len() > 0 {
        lemma_escape_like_literal(s.drop_first());
        let t = concat_map(s, f);
        let rest = concat_map(s.drop_first(), f);
        assert(t == like_piece(s[0]) + rest);
        if s[0] == '\\' || s[0] == '%' || s[0] == '_' {
            assert(t.skip(2) =~= rest);
        } else {
            assert(t.drop_first() =~= rest);
        }
        assert(seq![s[0]] + s.drop_first() =~= s);
    }
}

/// Escapes the `LIKE` wildcards `%` and `_` and the escape character `\`.
pub fn escape_like(s: &str) -> (r: String)
    ensures
        r@ == escape_like_spec(s@),
{
    let v = chars_of(s);
    let ghost f = |c: char| like_piece(c);
    let mut out = String::new();
    let mut i: usize = 0;
    assert(v@.skip(0) =~= v@);
    while i < v.len()
        invariant
            v@ == s@,
            i <= v.len(),
            f == (|c: char| like_piece(c)),
            out@ + concat_map(v@.skip(i as int), f) == escape_like_spec(s@),
        decreases v.len() - i,
    {
        proof {
            lemma_concat_map_step(v@, f, i as int);
            assert(f(v@[i as int]) == like_piece(v@[i as int]));
        }
        let ghost before = out@;
        let c = v[i];
        if c == '\\' || c == '%' || c == '_' {
            push_char(&mut out, '\\');
        }
        push_char(&mut out, c);
        assert(out@ =~= before + like_piece(c));
        assert(out@ + concat_map(v@.skip(i + 1), f) =~= before + concat_map(v@.skip(i as int), f));
        i += 1;
    }
    assert(v@.skip(v@.len() as int) =~= Seq::<char>::empty());
    out
}

/// The `LIKE` pattern that finds `query` anywhere in a column.
pub open spec fn search_pattern_spec(query: Seq<char>) -> Seq<char> {
    seq!['%'] + escape_like_spec(query) + seq!['%']
}

/// The `LIKE` pattern that finds `query` anywhere in a column.
pub fn search_pattern(query: &str) -> (r: String)
    ensures
        r@ == search_pattern_spec(query@),
{
    let mut s = String::new();
    push_char(&mut s, '%');
    let e = escape_like(query);
    push_str(&mut s, e.as_str());
    push_char(&mut s, '%');
    s
}

/// One lookup of a thread search.
pub enum Lookup {
    /// The thread with this id.
    Id(String),
    /// Threads whose name matches this `LIKE` pattern.
    Names(String),
    /// Threads whose opening message or title matches this `LIKE` pattern.
    Openings(String),
}

/// The first lookup for a query: by id when it is a UUID, else by name.
pub fn first_lookup(query: &str) -> (r: Lookup)
    ensures
        if is_uuid_spec(query@) {
            r matches Lookup::Id(id) && id@ == query@
        } else {
            r matches Lookup::Names(p) && p@ == search_pattern_spec(query@)
        },
{
    if is_uuid(query) {
        Lookup::Id(string_from(&chars_of(query)))
    } else {
        Lookup::Names(search_pattern(query))
    }
}

/// The lookup after one that found `found` threads: names are searched
/// first, and only when none match does the search widen to the opening
/// messages. `None` when the threads found are the answer.
pub fn next_lookup(prev: &Lookup, found: usize) -> (r: Option<Lookup>)
    ensures
        match prev {
            Lookup::Names(p) => if found == 0 {
                r matches Some(Lookup::Openings(q)) && q@ == p@
            } else {
                r is None
            },
            _ => r is None,
        },
{
    match prev {
        Lookup::Names(p) => if found == 0 {
            Some(Lookup::Openings(p.clone()))
        } else {
            None
        },
        _ => None,
    }
}

/// The value of a non-empty run of ASCII digits.
pub open spec fn digits_value(s: Seq<char>) -> int
    decreases s.len(),
{
    if s.len() == 0 {
        0
    } else {
        digits_value(s.drop_last()) * 10 + (s.last() as int - '0' as int)
    }
}

/// Whether every character of `s` is an ASCII digit.
pub open spec fn all_digits(s: Seq<char>) -> bool {
    forall|i: int| 0 <= i < s.len() ==> '0' <= #[trigger] s[i] <= '9'
}

/// `str::parse::<u32>`: an optional `+`, then one or more ASCII digits whose
/// value fits in a `u32`.
pub open spec fn parse_u32_spec(s: Seq<char>) -> Option<u32> {
    let d = if s.len() > 0 && s[0] == '+' {
        s.drop_first()
    } else {
        s
    };
    if d.len() > 0 && all_digits(d) && digits_value(d) <= u32::MAX {
        Some(digits_value(d) as u32)
    } else {
        None
    }
}

proof fn lemma_digits_value_nonneg(s: Seq<char>)
    requires
        all_digits(s),
    ensures
        digits_value(s) >= 0,
        forall|k: int| 0 <= k <= s.len() ==> digits_value(#[trigger] s.take(k)) <= digits_value(s),
    decreases s.len(),
{
    if s.len() > 0 {
        assert(all_digits(s.drop_last()));
        lemma_digits_value_nonneg(s.drop_last());
        assert forall|k: int| 0 <= k <= s.len() implies digits_value(#[trigger] s.take(k))
            <= digits_value(s) by {
            if k < s.len() {
                assert(s.take(k) =~= s.drop_last().take(k));
            } else {
                assert(s.take(k) =~= s);
            }
        }
    }
}

/// Parses a `u32` as `str::parse` does.
pub fn parse_u32(s: &Vec<char>) -> (r: Option<u32>)
    ensures
        r == parse_u32_spec(s@),
{
    let start: usize = if s.len() > 0 && s[0] == '+' { 1 } else { 0 };
    let ghost d = if s@.len() > 0 && s@[0] == '+' {
        s@.drop_first()
    } else {
        s@
    };
    assert(d =~= s@.skip(start as int));
    if start == s.len() {
        return None;
    }
    let mut value: u64 = 0;
    let mut i = start;
    while i < s.len()
        invariant
            start <= i <= s.len(),
            d == s@.skip(start as int),
            d == (if s@.len() > 0 && s@[0] == '+' {
                s@.drop_first()
            } else {
                s@
            }),
            all_digits(d.take(i - start)),
            value == digits_value(d.take(i - start)),
            value <= u32::MAX,
        decreases s.len() - i,
    {
        let c = s[i];
        if !('0' <= c && c <= '9') {
            assert(!all_digits(d)) by {
                assert(d[i - start] == c);
            }
            assert(parse_u32_spec(s@) is None);
            return None;
        }
        let ghost prev = d.take(i - start);
        let next = value * 10 + ((c as u32) - ('0' as u32)) as u64;
        proof {
            assert(d.take(i - start + 1).drop_last() =~= prev);
            assert(d.take(i - start + 1).last() == c);
            assert(all_digits(d.take(i - start + 1))) by {
                assert forall|j: int| 0 <= j < i - start + 1 implies '0' <= #[trigger] d.take(
                    i - start + 1,
                )[j] <= '9' by {
                    if j < i - start {
                        assert(d.take(i - start + 1)[j] == prev[j]);
                    }
                }
            }
        }
        if next > 0xFFFF_FFFF {
            proof {
                if all_digits(d) {
                    lemma_digits_value_nonneg(d);
                    assert(digits_value(d.take(i - start + 1)) <= digits_value(d));
                }
            }
            assert(parse_u32_spec(s@) is None);
            return None;
        }
        value = next;
        i += 1;
    }
    assert(d.take(i - start) =~= d);
    Some(value as u32)
}

/// The schema number `N` of a file named `state_<N>.sqlite`.
pub open spec fn state_db_number_spec(name: Seq<char>) -> Option<u32> {
    if "state_"@.is_prefix_of(name) && ".sqlite"@.is_suffix_of(name) && name.len() >= 13 {
        parse_u32_spec(name.subrange(6, name.len() - 7))
    } else {
        None
    }
}

/// The schema number of a thread database file name, if it is one.
pub fn state_db_number(name: &str) -> (r: Option<u32>)
    ensures
        r == state_db_number_spec(name@),
{
    let v = chars_of(name);
    let pre = chars_of("state_");
    let suf = chars_of(".sqlite");
    proof {
        reveal_strlit("state_");
        reveal_strlit(".sqlite");
    }
    if !(starts_with(&v, &pre) && ends_with(&v, &suf) && v.len() >= 13) {
        return None;
    }
    let mid = crate::text::take_chars(&skip_chars(&v, 6), v.len() - 13);
    assert(mid@ =~= v@.subrange(6, v@.len() - 7));
    parse_u32(&mid)
}

/// Index of the newest thread database among file names: the highest schema
/// number, the first such file when several share it.
pub fn newest_state_db(names: &Vec<String>) -> (r: Option<usize>)
    ensures
        match r {
            Some(k) => k < names.len() && state_db_number_spec(names@[k as int]@) is Some && (
            forall|j: int|
                0 <= j < names.len() && #[trigger] state_db_number_spec(names@[j]@) is Some ==> {
                    &&& state_db_number_spec(names@[j]@)->0 <= state_db_number_spec(
                        names@[k as int]@,
                    )->0
                    &&& j < k ==> state_db_number_spec(names@[j]@)->0 < state_db_number_spec(
                        names@[k as int]@,
                    )->0
                }),
            None => forall|j: int|
                0 <= j < names.len() ==> #[trigger] state_db_number_spec(names@[j]@) is None,
        },
{
    let mut best: Option<(u32, usize)> = None;
    let mut i: usize = 0;
    while i < names.len()
        invariant
            i <= names.len(),
            match best {
                Some((n, k)) => k < i && state_db_number_spec(names@[k as int]@) == Some(n) && (
                forall|j: int|
                    0 <= j < i && #[trigger] state_db_number_spec(names@[j]@) is Some ==> {
                        &&& state_db_number_spec(names@[j]@)->0 <= n
                        &&& j < k ==> state_db_number_spec(names@[j]@)->0 < n
                    }),
                None => forall|j: int|
                    0 <= j < i ==> #[trigger] state_db_number_spec(names@[j]@) is None,
            },
        decreases names.len() - i,
    {
        match state_db_number(names[i].as_str()) {
            Some(n) => {
                let better = match best {
                    Some((b, _)) => n > b,
                    None => true,
                };
                if better {
                    best = Some((n, i));
                }
            },
            None => {},
        }
        i += 1;
    }
    match best {
        Some((_, k)) => Some(k),
        None => None,
    }
}

} // verus!
