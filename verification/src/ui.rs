//! Terminal text: numbers with digit grouping, paths shown with `~`, and the
//! hints printed for API key files.

use vstd::prelude::*;
use crate::text::{
    chars_of, push_char, push_chars, push_str, string_from, decimal, decimal_text, trim,
    trim_chars, ascii_lower, lower_ascii_char, opt_view,
};
use crate::paths::{strip_verbatim, strip_verbatim_spec, strip_path_prefix, strip_path_prefix_spec};

verus! {

/// The digits `d[..i]` of a number with `d.len()` digits, with a comma in
/// front of every digit that has a multiple of three digits after it.
pub open spec fn grouped(d: Seq<char>, i: int) -> Seq<char>
    decreases i,
{
    if i <= 0 {
        Seq::empty()
    } else {
        let k = i - 1;
        grouped(d, k) + if k > 0 && (d.len() - k) % 3 == 0 {
            seq![',', d[k]]
        } else {
            seq![d[k]]
        }
    }
}

/// The absolute value of `n`.
pub open spec fn abs(n: int) -> nat {
    if n < 0 {
        (-n) as nat
    } else {
        n as nat
    }
}

/// `n` in decimal with commas between groups of three digits, and a leading
/// `-` when negative.
pub open spec fn thousands_spec(n: i64) -> Seq<char> {
    let d = decimal(abs(n as int));
    (if n < 0 {
        seq!['-']
    } else {
        Seq::empty()
    }) + grouped(d, d.len() as int)
}

/// `s` with every comma removed.
pub open spec fn without_commas(s: Seq<char>) -> Seq<char>
    decreases s.len(),
{
    if s.len() == 0 {
        s
    } else if s.last() == ',' {
        without_commas(s.drop_last())
    } else {
        without_commas(s.drop_last()).push(s.last())
    }
}

proof fn lemma_without_commas_add(a: Seq<char>, b: Seq<char>)
    ensures
        without_commas(a + b) == without_commas(a) + without_commas(b),
    decreases b.len(),
{
    if b.len() == 0 {
        assert(a + b =~= a);
        assert(without_commas(b) =~= Seq::<char>::empty());
    } else {
        assert((a + b).drop_last() =~= a + b.drop_last());
        lemma_without_commas_add(a, b.drop_last());
        if b.last() != ',' {
            assert(without_commas(a) + without_commas(b.drop_last()).push(b.last()) =~= (
            without_commas(a) + without_commas(b.drop_last())).push(b.last()));
        }
    }
}

proof fn lemma_without_commas_single(c: char)
    ensures
        without_commas(seq![c]) == if c == ',' {
            Seq::<char>::empty()
        } else {
            seq![c]
        },
{
    assert(seq![c].drop_last() =~= Seq::<char>::empty());
    assert(without_commas(Seq::<char>::empty()) =~= Seq::<char>::empty());
    assert(Seq::<char>::empty().push(c) =~= seq![c]);
}

proof fn lemma_grouped_digits(d: Seq<char>, i: int)
    requires
        0 <= i <= d.len(),
        forall|j: int| 0 <= j < d.len() ==> #[trigger] d[j] != ',',
    ensures
        without_commas(grouped(d, i)) == d.take(i),
    decreases i,
{
    if i > 0 {
        let k = i - 1;
        lemma_grouped_digits(d, k);
        let tail = if k > 0 && (d.len() - k) % 3 == 0 {
            seq![',', d[k]]
        } else {
            seq![d[k]]
        };
        lemma_without_commas_add(grouped(d, k), tail);
        lemma_without_commas_single(',');
        lemma_without_commas_single(d[k]);
        if k > 0 && (d.len() - k) % 3 == 0 {
            assert(tail =~= seq![','] + seq![d[k]]);
            lemma_without_commas_add(seq![','], seq![d[k]]);
        }
        assert(without_commas(tail) =~= seq![d[k]]);
        assert(d.take(k).push(d[k]) =~= d.take(i));
    }
}

proof fn lemma_decimal_digits(m: nat)
    ensures
        forall|j: int| 0 <= j < decimal(m).len() ==> '0' <= #[trigger] decimal(m)[j] <= '9',
        decimal(m).len() >= 1,
    decreases m,
{
    if m >= 10 {
        lemma_decimal_digits(m / 10);
    }
}

/// Taking the commas out of `thousands(n)` gives the plain decimal form of `n`.
pub proof fn lemma_thousands_digits(n: i64)
    ensures
        without_commas(thousands_spec(n)) == (if n < 0 {
            seq!['-']
        } else {
            Seq::empty()
        }) + decimal(abs(n as int)),
{
    let d = decimal(abs(n as int));
    lemma_decimal_digits(abs(n as int));
    lemma_grouped_digits(d, d.len() as int);
    assert(d.take(d.len() as int) =~= d);
    let sign = if n < 0 {
        seq!['-']
    } else {
        Seq::<char>::empty()
    };
    lemma_without_commas_add(sign, grouped(d, d.len() as int));
    lemma_without_commas_single('-');
    if n >= 0 {
        assert(without_commas(sign) =~= sign);
    }
}

/// `n` with its digits grouped by three, e.g. `165,328` or `-1,234,567`.
pub fn thousands(n: i64) -> (r: String)
    ensures
        r@ == thousands_spec(n),
{
    let m: u64 = if n < 0 {
        ((-(n + 1)) as u64) + 1
    } else {
        n as u64
    };
    let digits = decimal_text(m);
    let len = digits.len();
    let mut out = String::new();
    if n < 0 {
        push_char(&mut out, '-');
    }
    let ghost sign = out@;
    let mut i: usize = 0;
    while i < len
        invariant
            len == digits.len(),
            digits@ == decimal(abs(n as int)),
            i <= len,
            out@ == sign + grouped(digits@, i as int),
        decreases len - i,
    {
        if i > 0 && (len - i) % 3 == 0 {
            push_char(&mut out, ',');
        }
        push_char(&mut out, digits[i]);
        proof {
            let k = i as int;
            let tail = if k > 0 && (len - k) % 3 == 0 {
                seq![',', digits@[k]]
            } else {
                seq![digits@[k]]
            };
            assert(grouped(digits@, k + 1) == grouped(digits@, k) + tail);
            assert(out@ =~= sign + grouped(digits@, k + 1));
        }
        i += 1;
    }
    out
}

/// How a path is shown: under `home`, as `~` followed by the separator and
/// the rest; otherwise as written (without the `\\?\` prefix).
pub open spec fn tilde_spec(path: Seq<char>, home: Seq<char>, sep: char) -> Seq<char> {
    let shown = strip_verbatim_spec(path);
    match strip_path_prefix_spec(shown, home, sep) {
        Some(rest) => if rest.len() == 0 {
            seq!['~']
        } else {
            seq!['~', sep] + rest
        },
        None => shown,
    }
}

/// Shows paths under the home directory as `~/...` (`sep` is the platform's
/// path separator).
pub fn tilde(path: &str, home: &str, sep: char) -> (r: String)
    ensures
        r@ == tilde_spec(path@, home@, sep),
{
    let p = chars_of(path);
    let h = chars_of(home);
    let shown = strip_verbatim(&p);
    match strip_path_prefix(&shown, &h, sep) {
        Some(rest) => {
            let mut s = String::new();
            push_char(&mut s, '~');
            if rest.len() > 0 {
                push_char(&mut s, sep);
                push_chars(&mut s, &rest);
            }
            proof {
                if rest@.len() > 0 {
                    assert(s@ =~= seq!['~', sep] + rest@);
                } else {
                    assert(s@ =~= seq!['~']);
                }
            }
            s
        },
        None => string_from(&shown),
    }
}

/// A key file's path as the user should type it: `~/...` in a Unix shell,
/// the full path on Windows, where neither cmd nor every tool knows `~`.
pub open spec fn key_path_spec(path: Seq<char>, home: Seq<char>, windows: bool) -> Seq<char> {
    if windows {
        strip_verbatim_spec(path)
    } else {
        tilde_spec(path, home, '/')
    }
}

/// A key file's path as the user should type it.
pub fn key_path(path: &str, home: &str, windows: bool) -> (r: String)
    ensures
        r@ == key_path_spec(path@, home@, windows),
{
    if windows {
        let p = chars_of(path);
        let v = strip_verbatim(&p);
        string_from(&v)
    } else {
        tilde(path, home, '/')
    }
}

/// The command that puts an API key into a key file, for the user's shell.
pub open spec fn key_hint_spec(path: Seq<char>, home: Seq<char>, windows: bool) -> Seq<char> {
    if windows {
        "Set-Content -NoNewline -Path '"@ + key_path_spec(path, home, windows)
            + "' -Value '<キー>'   （PowerShell）"@
    } else {
        "printf %s '<キー>' > "@ + key_path_spec(path, home, windows)
    }
}

/// A command that puts an API key into `path`, for the user's own shell.
pub fn key_hint(path: &str, home: &str, windows: bool) -> (r: String)
    ensures
        r@ == key_hint_spec(path@, home@, windows),
{
    let kp = key_path(path, home, windows);
    let mut s = String::new();
    if windows {
        push_str(&mut s, "Set-Content -NoNewline -Path '");
        push_str(&mut s, kp.as_str());
        push_str(&mut s, "' -Value '<キー>'   （PowerShell）");
    } else {
        push_str(&mut s, "printf %s '<キー>' > ");
        push_str(&mut s, kp.as_str());
    }
    s
}

/// Whether an answer to a y/N question means yes: `y` or `yes` in any case,
/// with surrounding whitespace ignored.
pub open spec fn is_yes_spec(answer: Seq<char>) -> bool {
    let t = trim(answer);
    (t.len() == 1 && ascii_lower(t[0]) == 'y') || (t.len() == 3 && ascii_lower(t[0]) == 'y'
        && ascii_lower(t[1]) == 'e' && ascii_lower(t[2]) == 's')
}

/// Reads the answer to a y/N question.
pub fn is_yes(answer: &str) -> (r: bool)
    ensures
        r == is_yes_spec(answer@),
{
    let v = chars_of(answer);
    let t = trim_chars(&v);
    if t.len() == 1 {
        lower_ascii_char(t[0]) == 'y'
    } else if t.len() == 3 {
        lower_ascii_char(t[0]) == 'y' && lower_ascii_char(t[1]) == 'e' && lower_ascii_char(t[2])
            == 's'
    } else {
        false
    }
}


/// `s` padded with spaces to `width` characters, as `{:<width}` formats it.
pub open spec fn pad_right_spec(s: Seq<char>, width: nat) -> Seq<char> {
    if s.len() >= width {
        s
    } else {
        s + Seq::new((width - s.len()) as nat, |i: int| ' ')
    }
}

/// `s` padded with spaces to `width` characters.
pub fn pad_right(s: &str, width: usize) -> (r: String)
    ensures
        r@ == pad_right_spec(s@, width as nat),
{
    let v = chars_of(s);
    let mut out = string_from(&v);
    let mut n = v.len();
    while n < width
        invariant
            v.len() <= n <= width || (n == v.len() && v.len() >= width),
            out@ == v@ + Seq::new((n - v.len()) as nat, |i: int| ' '),
        decreases width - n,
    {
        push_char(&mut out, ' ');
        assert(out@ =~= v@ + Seq::new((n + 1 - v.len()) as nat, |i: int| ' '));
        n += 1;
    }
    proof {
        if v.len() >= width {
            assert(out@ =~= v@);
        }
    }
    out
}

/// The numbers of `pids` joined by `, `.
pub open spec fn pid_list(pids: Seq<u32>) -> Seq<char>
    decreases pids.len(),
{
    if pids.len() == 0 {
        Seq::empty()
    } else if pids.len() == 1 {
        decimal(pids[0] as nat)
    } else {
        pid_list(pids.drop_last()) + ", "@ + decimal(pids.last() as nat)
    }
}

/// The sidecar's state for `status`: stopped, or running with its PIDs.
pub open spec fn running_state_spec(pids: Seq<u32>) -> Seq<char> {
    if pids.len() == 0 {
        "停止中"@
    } else {
        "起動中（PID "@ + pid_list(pids) + "）"@
    }
}

/// The sidecar's state for `status`.
pub fn running_state(pids: &Vec<u32>) -> (r: String)
    ensures
        r@ == running_state_spec(pids@),
{
    let mut s = String::new();
    if pids.len() == 0 {
        push_str(&mut s, "停止中");
        return s;
    }
    push_str(&mut s, "起動中（PID ");
    let ghost head = s@;
    let mut i: usize = 0;
    while i < pids.len()
        invariant
            i <= pids.len(),
            s@ == head + pid_list(pids@.take(i as int)),
        decreases pids.len() - i,
    {
        if i > 0 {
            push_str(&mut s, ", ");
        }
        let d = decimal_text(pids[i] as u64);
        push_chars(&mut s, &d);
        proof {
            let t = pids@.take(i + 1);
            assert(t.drop_last() =~= pids@.take(i as int));
            assert(t.last() == pids@[i as int]);
            if i == 0 {
                assert(pids@.take(0) =~= Seq::<u32>::empty());
            }
            assert(s@ =~= head + pid_list(t));
        }
        i += 1;
    }
    assert(pids@.take(pids@.len() as int) =~= pids@);
    push_str(&mut s, "）");
    s
}

/// A check mark or a cross.
pub open spec fn mark_spec(ok: bool) -> Seq<char> {
    if ok {
        "✓"@
    } else {
        "✗"@
    }
}

/// One provider's line in `status`: name and model in columns, whether the
/// key file and the catalog are there.
pub open spec fn provider_line_spec(name: Seq<char>, model: Seq<char>, has_key: bool, has_catalog: bool) -> Seq<char> {
    "  "@ + pad_right_spec(name, 11) + " "@ + pad_right_spec(model, 30) + " キー "@ + mark_spec(
        has_key,
    ) + "  カタログ "@ + mark_spec(has_catalog)
}

fn mark(ok: bool) -> (r: &'static str)
    ensures
        r@ == mark_spec(ok),
{
    if ok {
        "✓"
    } else {
        "✗"
    }
}

/// One provider's line in `status`.
pub fn provider_line(name: &str, model: &str, has_key: bool, has_catalog: bool) -> (r: String)
    ensures
        r@ == provider_line_spec(name@, model@, has_key, has_catalog),
{
    let mut s = String::new();
    push_str(&mut s, "  ");
    push_str(&mut s, pad_right(name, 11).as_str());
    push_str(&mut s, " ");
    push_str(&mut s, pad_right(model, 30).as_str());
    push_str(&mut s, " キー ");
    push_str(&mut s, mark(has_key));
    push_str(&mut s, "  カタログ ");
    push_str(&mut s, mark(has_catalog));
    s
}


/// What `status` says of the `codex` binary: its version when it runs;
/// otherwise, on Windows without a configured binary, that the copy is made
/// at the first handoff, else that it cannot run.
pub open spec fn codex_state_spec(version: Option<Seq<char>>, windows: bool, configured: bool) -> Seq<char> {
    match version {
        Some(v) => v,
        None => if windows && !configured {
            "未準備。初回の handoff でアプリから複製します"@
        } else {
            "実行できません"@
        },
    }
}

/// What `status` says of the `codex` binary.
pub fn codex_state(version: Option<String>, windows: bool, configured: bool) -> (r: String)
    ensures
        r@ == codex_state_spec(opt_view(version), windows, configured),
{
    match version {
        Some(v) => v,
        None => {
            let mut s = String::new();
            if windows && !configured {
                push_str(&mut s, "未準備。初回の handoff でアプリから複製します");
            } else {
                push_str(&mut s, "実行できません");
            }
            s
        },
    }
}

} // verus!
