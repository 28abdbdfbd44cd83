//! Windows support: the scripts that find the app's MSIX package and start a
//! second instance inside it, and their encoding for `-EncodedCommand`.
//!
//! The builders are plain functions from strings to strings; running the
//! scripts happens outside this library.

use vstd::prelude::*;
use crate::text::{chars_of, push_char, push_str, concat_map, lemma_concat_map_step, string_from};

verus! {

// ---------------------------------------------------------------------------
// Base64
// ---------------------------------------------------------------------------

/// The base64 digit for a 6-bit value.
pub open spec fn b64_digit(i: int) -> char {
    if i < 26 {
        (65 + i) as char
    } else if i < 52 {
        (97 + (i - 26)) as char
    } else if i < 62 {
        (48 + (i - 52)) as char
    } else if i == 62 {
        '+'
    } else {
        '/'
    }
}

/// The four output characters for a group of `n` (1 to 3) input bytes; bytes
/// past `n` are taken as zero and their digits replaced by `=`.
pub open spec fn b64_group(b0: int, b1: int, b2: int, n: int) -> Seq<char> {
    let s0 = b0 / 4;
    let s1 = (b0 % 4) * 16 + b1 / 16;
    let s2 = (b1 % 16) * 4 + b2 / 64;
    let s3 = b2 % 64;
    if n >= 3 {
        seq![b64_digit(s0), b64_digit(s1), b64_digit(s2), b64_digit(s3)]
    } else if n == 2 {
        seq![b64_digit(s0), b64_digit(s1), b64_digit(s2), '=']
    } else {
        seq![b64_digit(s0), b64_digit(s1), '=', '=']
    }
}

/// Standard base64 (RFC 4648 alphabet, `=` padding) of `b`.
pub open spec fn base64_spec(b: Seq<u8>) -> Seq<char>
    decreases b.len(),
{
    if b.len() == 0 {
        Seq::empty()
    } else if b.len() == 1 {
        b64_group(b[0] as int, 0, 0, 1)
    } else if b.len() == 2 {
        b64_group(b[0] as int, b[1] as int, 0, 2)
    } else {
        b64_group(b[0] as int, b[1] as int, b[2] as int, 3) + base64_spec(b.skip(3))
    }
}

fn b64_char(i: u8) -> (c: char)
    requires
        i < 64,
    ensures
        c == b64_digit(i as int),
{
    if i < 26 {
        ((65u8 + i) as char)
    } else if i < 52 {
        ((97u8 + (i - 26)) as char)
    } else if i < 62 {
        ((48u8 + (i - 52)) as char)
    } else if i == 62 {
        '+'
    } else {
        '/'
    }
}

/// Base64 of `bytes`.
pub fn base64(bytes: &Vec<u8>) -> (r: String)
    ensures
        r@ == base64_spec(bytes@),
{
    let mut out = String::new();
    let mut i: usize = 0;
    let len = bytes.len();
    assert(bytes@.skip(0) =~= bytes@);
    while i < len
        invariant
            len == bytes.len(),
            i <= len,
            out@ + base64_spec(bytes@.skip(i as int)) == base64_spec(bytes@),
        decreases len - i,
    {
        let rem = len - i;
        let b0 = bytes[i];
        let b1: u8 = if rem > 1 { bytes[i + 1] } else { 0 };
        let b2: u8 = if rem > 2 { bytes[i + 2] } else { 0 };
        let ghost before = out@;
        let ghost rest = bytes@.skip(i as int);
        push_char(&mut out, b64_char(b0 / 4));
        push_char(&mut out, b64_char((b0 % 4) * 16 + b1 / 16));
        if rem > 1 {
            push_char(&mut out, b64_char((b1 % 16) * 4 + b2 / 64));
        } else {
            push_char(&mut out, '=');
        }
        if rem > 2 {
            push_char(&mut out, b64_char(b2 % 64));
        } else {
            push_char(&mut out, '=');
        }
        proof {
            assert(rest[0] == b0);
            if rem > 1 {
                assert(rest[1] == b1);
            }
            if rem > 2 {
                assert(rest[2] == b2);
            }
            let g = b64_group(b0 as int, b1 as int, b2 as int, if rem > 3 { 3 } else { rem as int });
            assert(out@ =~= before + g);
            if rem >= 3 {
                assert(rest.skip(3) =~= bytes@.skip(i + 3));
                assert(base64_spec(rest) == g + base64_spec(bytes@.skip(i + 3)));
            } else {
                assert(bytes@.skip(len as int) =~= Seq::<u8>::empty());
                assert(base64_spec(rest) == g);
            }
        }
        i = if rem >= 3 { i + 3 } else { len };
    }
    assert(bytes@.skip(len as int) =~= Seq::<u8>::empty());
    out
}

/// Base64 of a concatenation splits at a boundary that is a multiple of three
/// bytes.
pub proof fn lemma_base64_concat(a: Seq<u8>, b: Seq<u8>)
    requires
        a.len() % 3 == 0,
    ensures
        base64_spec(a + b) == base64_spec(a) + base64_spec(b),
    decreases a.len(),
{
    if a.len() == 0 {
        assert(a + b =~= b);
    } else {
        assert((a + b).skip(3) =~= a.skip(3) + b);
        assert((a + b)[0] == a[0] && (a + b)[1] == a[1] && (a + b)[2] == a[2]);
        lemma_base64_concat(a.skip(3), b);
    }
}

/// Every three input bytes (or final part of them) become four characters.
pub proof fn lemma_base64_len(b: Seq<u8>)
    ensures
        base64_spec(b).len() == 4 * ((b.len() + 2) / 3),
    decreases b.len(),
{
    if b.len() >= 3 {
        lemma_base64_len(b.skip(3));
    }
}

/// Whether `c` is one of the 64 base64 digits.
pub open spec fn is_b64_digit(c: char) -> bool {
    ('A' <= c <= 'Z') || ('a' <= c <= 'z') || ('0' <= c <= '9') || c == '+' || c == '/'
}

/// The 6-bit value of a base64 digit (RFC 4648).
pub open spec fn b64_value(c: char) -> int {
    let v = c as int;
    if 65 <= v <= 90 {
        v - 65
    } else if 97 <= v <= 122 {
        v - 71
    } else if 48 <= v <= 57 {
        v + 4
    } else if c == '+' {
        62
    } else {
        63
    }
}

/// Decoding of base64 text in groups of four (RFC 4648): `=` in the third
/// place leaves one byte of the group, in the fourth place two.
pub open spec fn base64_decode(s: Seq<char>) -> Seq<u8>
    decreases s.len(),
{
    if s.len() < 4 {
        Seq::empty()
    } else {
        let v0 = b64_value(s[0]);
        let v1 = b64_value(s[1]);
        let v2 = b64_value(s[2]);
        let v3 = b64_value(s[3]);
        let b0 = (v0 * 4 + v1 / 16) as u8;
        let b1 = ((v1 % 16) * 16 + v2 / 4) as u8;
        let b2 = ((v2 % 4) * 64 + v3) as u8;
        (if s[2] == '=' {
            seq![b0]
        } else if s[3] == '=' {
            seq![b0, b1]
        } else {
            seq![b0, b1, b2]
        }) + base64_decode(s.skip(4))
    }
}

/// How many `=` end the base64 of `n` bytes.
pub open spec fn b64_padding(n: nat) -> nat {
    ((3 - n % 3) % 3) as nat
}

proof fn lemma_digit_value(i: int)
    requires
        0 <= i < 64,
    ensures
        is_b64_digit(b64_digit(i)),
        b64_value(b64_digit(i)) == i,
        b64_digit(i) != '=',
{
}

proof fn lemma_group_arith(b0: int, b1: int, b2: int)
    requires
        0 <= b0 < 256,
        0 <= b1 < 256,
        0 <= b2 < 256,
    ensures
        ({
            let s0 = b0 / 4;
            let s1 = (b0 % 4) * 16 + b1 / 16;
            let s2 = (b1 % 16) * 4 + b2 / 64;
            let s3 = b2 % 64;
            &&& 0 <= s0 < 64 && 0 <= s1 < 64 && 0 <= s2 < 64 && 0 <= s3 < 64
            &&& s0 * 4 + s1 / 16 == b0
            &&& (s1 % 16) * 16 + s2 / 4 == b1
            &&& (s2 % 4) * 64 + s3 == b2
        }),
{
    let s1 = (b0 % 4) * 16 + b1 / 16;
    let s2 = (b1 % 16) * 4 + b2 / 64;
    assert(s1 / 16 == b0 % 4 && s1 % 16 == b1 / 16) by (nonlinear_arith)
        requires
            s1 == (b0 % 4) * 16 + b1 / 16,
            0 <= b0 < 256,
            0 <= b1 < 256,
    ;
    assert(s2 / 4 == b1 % 16 && s2 % 4 == b2 / 64) by (nonlinear_arith)
        requires
            s2 == (b1 % 16) * 4 + b2 / 64,
            0 <= b1 < 256,
            0 <= b2 < 256,
    ;
}

/// Base64 is made of the 64 digits, then exactly as many `=` as the last
/// group lacks bytes; and decoding it gives the bytes back.
pub proof fn lemma_base64_shape(b: Seq<u8>)
    ensures
        ({
            let r = base64_spec(b);
            &&& forall|i: int|
                0 <= i < r.len() ==> (#[trigger] r[i] == '=' <==> i >= r.len() - b64_padding(b.len()))
            &&& forall|i: int| 0 <= i < r.len() && r[i] != '=' ==> is_b64_digit(#[trigger] r[i])
            &&& base64_decode(r) == b
        }),
    decreases b.len(),
{
    lemma_base64_len(b);
    if b.len() == 0 {
        assert(base64_spec(b) =~= Seq::<char>::empty());
        assert(b =~= Seq::<u8>::empty());
    } else {
        let b0 = b[0] as int;
        let b1 = if b.len() > 1 { b[1] as int } else { 0 };
        let b2 = if b.len() > 2 { b[2] as int } else { 0 };
        lemma_group_arith(b0, b1, b2);
        let s0 = b0 / 4;
        let s1 = (b0 % 4) * 16 + b1 / 16;
        let s2 = (b1 % 16) * 4 + b2 / 64;
        let s3 = b2 % 64;
        lemma_digit_value(s0);
        lemma_digit_value(s1);
        lemma_digit_value(s2);
        lemma_digit_value(s3);
        let n = if b.len() >= 3 { 3 } else { b.len() as int };
        let g = b64_group(b0, b1, b2, n);
        let r = base64_spec(b);
        if b.len() >= 3 {
            let rest = b.skip(3);
            lemma_base64_shape(rest);
            lemma_base64_len(rest);
            let rr = base64_spec(rest);
            assert(r == g + rr);
            assert(b64_padding(b.len()) == b64_padding(rest.len()));
            assert forall|i: int| 0 <= i < r.len() implies (#[trigger] r[i] == '=' <==> i >= r.len()
                - b64_padding(b.len())) by {
                if i >= 4 {
                    assert(r[i] == rr[i - 4]);
                }
            }
            assert forall|i: int| 0 <= i < r.len() && r[i] != '=' implies is_b64_digit(
                #[trigger] r[i],
            ) by {
                if i >= 4 {
                    assert(r[i] == rr[i - 4]);
                }
            }
            assert(r.skip(4) =~= rr);
            assert(base64_decode(r) == seq![b0 as u8, b1 as u8, b2 as u8] + b.skip(3));
            assert(b =~= seq![b[0], b[1], b[2]] + b.skip(3));
        } else {
            assert(r == g);
            assert(r.skip(4) =~= Seq::<char>::empty());
            assert(base64_decode(r.skip(4)) =~= Seq::<u8>::empty());
            assert forall|i: int| 0 <= i < r.len() implies (#[trigger] r[i] == '=' <==> i >= r.len()
                - b64_padding(b.len())) by {
                if i == 0 {
                } else if i == 1 {
                } else if i == 2 {
                } else {
                }
            }
            assert forall|i: int| 0 <= i < r.len() && r[i] != '=' implies is_b64_digit(
                #[trigger] r[i],
            ) by {
                if i == 0 {
                } else if i == 1 {
                } else if i == 2 {
                } else {
                }
            }
            if b.len() == 2 {
                assert(base64_decode(r) =~= seq![b0 as u8, b1 as u8]);
                assert(b =~= seq![b[0], b[1]]);
            } else {
                assert(base64_decode(r) =~= seq![b0 as u8]);
                assert(b =~= seq![b[0]]);
            }
        }
    }
}

// ---------------------------------------------------------------------------
// UTF-16LE and -EncodedCommand
// ---------------------------------------------------------------------------

/// The UTF-16LE bytes of one character: one code unit below U+10000, a
/// surrogate pair above.
pub open spec fn utf16le_char(c: char) -> Seq<u8> {
    let v = (c as u32) as int;
    if v < 0x10000 {
        seq![(v % 256) as u8, (v / 256) as u8]
    } else {
        let w = v - 0x10000;
        let hi = 0xD800 + w / 1024;
        let lo = 0xDC00 + w % 1024;
        seq![(hi % 256) as u8, (hi / 256) as u8, (lo % 256) as u8, (lo / 256) as u8]
    }
}

/// The UTF-16LE encoding of `s`.
pub open spec fn utf16le(s: Seq<char>) -> Seq<u8>
    decreases s.len(),
{
    if s.len() == 0 {
        Seq::empty()
    } else {
        utf16le_char(s[0]) + utf16le(s.drop_first())
    }
}

/// The UTF-16LE encoding of `s`.
pub fn utf16le_bytes(s: &str) -> (r: Vec<u8>)
    ensures
        r@ == utf16le(s@),
{
    let v = chars_of(s);
    let mut out: Vec<u8> = Vec::new();
    let mut i: usize = 0;
    assert(v@.skip(0) =~= v@);
    while i < v.len()
        invariant
            v@ == s@,
            i <= v.len(),
            out@ + utf16le(v@.skip(i as int)) == utf16le(v@),
        decreases v.len() - i,
    {
        let c = v[i];
        let x = c as u32;
        proof {
            vstd::utf8::char_is_scalar(c);
        }
        let ghost before = out@;
        if x < 0x10000 {
            out.push((x % 256) as u8);
            out.push((x / 256) as u8);
        } else {
            let w = x - 0x10000;
            let hi = 0xD800 + w / 1024;
            let lo = 0xDC00 + w % 1024;
            out.push((hi % 256) as u8);
            out.push((hi / 256) as u8);
            out.push((lo % 256) as u8);
            out.push((lo / 256) as u8);
        }
        proof {
            assert(out@ =~= before + utf16le_char(c));
            assert(v@.skip(i as int).drop_first() =~= v@.skip(i + 1));
        }
        i += 1;
    }
    assert(v@.skip(v@.len() as int) =~= Seq::<char>::empty());
    assert(v@.skip(0) =~= v@);
    out
}

/// `-EncodedCommand` payload: base64 of the UTF-16LE script. This sidesteps
/// every quoting layer between the caller and PowerShell.
pub fn encode_command(script: &str) -> (r: String)
    ensures
        r@ == base64_spec(utf16le(script@)),
{
    let bytes = utf16le_bytes(script);
    base64(&bytes)
}

// ---------------------------------------------------------------------------
// PowerShell literals and scripts
// ---------------------------------------------------------------------------

/// What one character becomes inside a single-quoted PowerShell literal.
pub open spec fn ps_piece(c: char) -> Seq<char> {
    if c == '\'' {
        seq!['\'', '\'']
    } else {
        seq![c]
    }
}

/// The PowerShell single-quoted literal for `s`.
pub open spec fn ps_quote_spec(s: Seq<char>) -> Seq<char> {
    seq!['\''] + concat_map(s, |c: char| ps_piece(c)) + seq!['\'']
}

/// The value of the body of a single-quoted literal: `''` stands for one
/// quote, a lone quote ends the literal too early.
pub open spec fn ps_unquote_body(t: Seq<char>) -> Option<Seq<char>>
    decreases t.len(),
{
    if t.len() == 0 {
        Some(Seq::empty())
    } else if t[0] == '\'' {
        if t.len() >= 2 && t[1] == '\'' {
            match ps_unquote_body(t.skip(2)) {
                Some(r) => Some(seq!['\''] + r),
                None => None,
            }
        } else {
            None
        }
    } else {
        match ps_unquote_body(t.drop_first()) {
            Some(r) => Some(seq![t[0]] + r),
            None => None,
        }
    }
}

/// The string a single-quoted PowerShell literal stands for, if `t` is one.
pub open spec fn ps_literal_value(t: Seq<char>) -> Option<Seq<char>> {
    if t.len() >= 2 && t[0] == '\'' && t[t.len() - 1] == '\'' {
        ps_unquote_body(t.subrange(1, t.len() - 1))
    } else {
        None
    }
}

proof fn lemma_ps_body_round_trip(s: Seq<char>)
    ensures
        ps_unquote_body(concat_map(s, |c: char| ps_piece(c))) == Some(s),
    decreases s.len(),
{
    let f = |c: char| ps_piece(c);
    if s.len() > 0 {
        lemma_ps_body_round_trip(s.drop_first());
        let t = concat_map(s, f);
        let rest = concat_map(s.drop_first(), f);
        assert(t == ps_piece(s[0]) + rest);
        if s[0] == '\'' {
            assert(t.skip(2) =~= rest);
        } else {
            assert(t.drop_first() =~= rest);
        }
        assert(seq![s[0]] + s.drop_first() =~= s);
    }
}

/// Reading back the literal made by `ps_quote` gives the quoted string back.
pub proof fn lemma_ps_quote_round_trip(s: Seq<char>)
    ensures
        ps_literal_value(ps_quote_spec(s)) == Some(s),
{
    let body = concat_map(s, |c: char| ps_piece(c));
    let t = ps_quote_spec(s);
    assert(t.subrange(1, t.len() - 1) =~= body);
    lemma_ps_body_round_trip(s);
}

/// How many apostrophes `s` holds.
pub open spec fn quote_count(s: Seq<char>) -> nat
    decreases s.len(),
{
    if s.len() == 0 {
        0
    } else {
        (if s[0] == '\'' { 1nat } else { 0nat }) + quote_count(s.drop_first())
    }
}

proof fn lemma_ps_body_len(s: Seq<char>)
    ensures
        concat_map(s, |c: char| ps_piece(c)).len() == s.len() + quote_count(s),
    decreases s.len(),
{
    if s.len() > 0 {
        lemma_ps_body_len(s.drop_first());
    }
}

/// The literal is the string with each apostrophe doubled, between two
/// apostrophes: two characters longer, plus one per apostrophe.
pub proof fn lemma_ps_quote_len(s: Seq<char>)
    ensures
        ps_quote_spec(s).len() == s.len() + 2 + quote_count(s),
        ps_quote_spec(s)[0] == '\'',
        ps_quote_spec(s).last() == '\'',
{
    lemma_ps_body_len(s);
}

/// PowerShell single-quoted string literal.
pub fn ps_quote(s: &str) -> (r: String)
    ensures
        r@ == ps_quote_spec(s@),
{
    let v = chars_of(s);
    let ghost f = |c: char| ps_piece(c);
    let mut out = String::new();
    push_char(&mut out, '\'');
    let mut i: usize = 0;
    assert(v@.skip(0) =~= v@);
    assert(out@ =~= seq!['\'']);
    while i < v.len()
        invariant
            v@ == s@,
            i <= v.len(),
            f == (|c: char| ps_piece(c)),
            out@ + concat_map(v@.skip(i as int), f) + seq!['\''] == ps_quote_spec(s@),
        decreases v.len() - i,
    {
        proof {
            lemma_concat_map_step(v@, f, i as int);
            assert(f(v@[i as int]) == ps_piece(v@[i as int]));
        }
        let ghost before = out@;
        if v[i] == '\'' {
            push_char(&mut out, '\'');
            push_char(&mut out, '\'');
        } else {
            push_char(&mut out, v[i]);
        }
        assert(out@ =~= before + ps_piece(v@[i as int]));
        assert(out@ + concat_map(v@.skip(i + 1), f) + seq!['\''] =~= before + concat_map(
            v@.skip(i as int),
            f,
        ) + seq!['\'']);
        i += 1;
    }
    proof {
        assert(v@.skip(0) =~= v@);
        assert(v@.skip(v@.len() as int) =~= Seq::<char>::empty());
    }
    push_char(&mut out, '\'');
    out
}

/// The script that prints the newest installed version of package `name` as
/// compact JSON.
pub open spec fn package_script_spec(name: Seq<char>) -> Seq<char> {
    "$p = Get-AppxPackage -Name "@ + ps_quote_spec(name)
        + " | Sort-Object Version -Descending | Select-Object -First 1\nif (-not $p) { exit 3 }\n[pscustomobject]@{ InstallLocation = $p.InstallLocation; PackageFamilyName = $p.PackageFamilyName; Version = $p.Version.ToString() } | ConvertTo-Json -Compress"@
}

/// Prints the newest installed version of package `name` as compact JSON.
pub fn package_script(name: &str) -> (r: String)
    ensures
        r@ == package_script_spec(name@),
{
    let mut s = String::new();
    push_str(&mut s, "$p = Get-AppxPackage -Name ");
    let q = ps_quote(name);
    push_str(&mut s, q.as_str());
    push_str(
        &mut s,
        " | Sort-Object Version -Descending | Select-Object -First 1\nif (-not $p) { exit 3 }\n[pscustomobject]@{ InstallLocation = $p.InstallLocation; PackageFamilyName = $p.PackageFamilyName; Version = $p.Version.ToString() } | ConvertTo-Json -Compress",
    );
    s
}

/// The path of the app's main executable inside the package.
pub open spec fn app_exe_spec(install_location: Seq<char>) -> Seq<char> {
    install_location + "\\app\\ChatGPT.exe"@
}

/// The `cmd.exe` command line run inside the package: it sets the two
/// variables and starts the app with its own user-data directory.
pub open spec fn launch_cmdline_spec(exe: Seq<char>, home: Seq<char>, data: Seq<char>) -> Seq<char> {
    "/c set \"CODEX_HOME="@ + home + "\" && set \"CODEX_ELECTRON_USER_DATA_PATH="@ + data
        + "\" && start \"\" \""@ + exe + "\" \"--user-data-dir="@ + data + "\""@
}

/// The whole launch script.
pub open spec fn launch_script_spec(
    family: Seq<char>,
    app_id: Seq<char>,
    install_location: Seq<char>,
    home: Seq<char>,
    user_data: Seq<char>,
) -> Seq<char> {
    "$ErrorActionPreference = 'Stop'\nInvoke-CommandInDesktopPackage -PackageFamilyName "@
        + ps_quote_spec(family) + " -AppId "@ + ps_quote_spec(app_id)
        + " -Command 'cmd.exe' -Args "@ + ps_quote_spec(
        launch_cmdline_spec(app_exe_spec(install_location), home, user_data),
    )
}

/// Starts the app as a second instance with its own CODEX_HOME and user data.
///
/// `cmd.exe` runs inside the package, so it is allowed to start the packaged
/// executable, and the variables it sets are inherited by the app.
pub fn launch_script(
    family: &str,
    app_id: &str,
    install_location: &str,
    home: &str,
    user_data: &str,
) -> (r: String)
    ensures
        r@ == launch_script_spec(family@, app_id@, install_location@, home@, user_data@),
{
    let mut exe = String::new();
    push_str(&mut exe, install_location);
    push_str(&mut exe, "\\app\\ChatGPT.exe");
    let mut cmd = String::new();
    push_str(&mut cmd, "/c set \"CODEX_HOME=");
    push_str(&mut cmd, home);
    push_str(&mut cmd, "\" && set \"CODEX_ELECTRON_USER_DATA_PATH=");
    push_str(&mut cmd, user_data);
    push_str(&mut cmd, "\" && start \"\" \"");
    push_str(&mut cmd, exe.as_str());
    push_str(&mut cmd, "\" \"--user-data-dir=");
    push_str(&mut cmd, user_data);
    push_str(&mut cmd, "\"");
    let mut s = String::new();
    push_str(
        &mut s,
        "$ErrorActionPreference = 'Stop'\nInvoke-CommandInDesktopPackage -PackageFamilyName ",
    );
    let qf = ps_quote(family);
    push_str(&mut s, qf.as_str());
    push_str(&mut s, " -AppId ");
    let qa = ps_quote(app_id);
    push_str(&mut s, qa.as_str());
    push_str(&mut s, " -Command 'cmd.exe' -Args ");
    let qc = ps_quote(cmd.as_str());
    push_str(&mut s, qc.as_str());
    s
}

/// The installed Codex package, as reported by the package script.
pub struct Package {
    pub install_location: String,
    pub family_name: String,
    pub version: String,
}

/// File name of the cached copy of the package's `codex.exe` for `version`.
pub open spec fn codex_copy_name_spec(version: Seq<char>) -> Seq<char> {
    "codex-"@ + version + ".exe"@
}

/// File name of the cached copy of the package's `codex.exe` for `version`.
pub fn codex_copy_name(version: &str) -> (r: String)
    ensures
        r@ == codex_copy_name_spec(version@),
{
    let mut s = String::new();
    push_str(&mut s, "codex-");
    push_str(&mut s, version);
    push_str(&mut s, ".exe");
    s
}

/// Whether a file in the cache is a copy for another version, to be removed
/// once the current copy is in place.
pub fn is_stale_copy(name: &str, current: &str) -> (r: bool)
    ensures
        r == ("codex-"@.is_prefix_of(name@) && ".exe"@.is_suffix_of(name@) && name@ != current@),
{
    let v = chars_of(name);
    let pre = chars_of("codex-");
    let suf = chars_of(".exe");
    let c = chars_of(current);
    crate::text::starts_with(&v, &pre) && crate::text::ends_with(&v, &suf)
        && !crate::text::chars_eq(&v, &c)
}

} // verus!
