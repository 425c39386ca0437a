//! The Lua table text written by `Turbine.PluginData.Save`.
//!
//! A file is `return` followed by one table literal. Keys are `["string"]`,
//! `[number]` or bare identifiers; values are strings, numbers, booleans,
//! `nil` or nested tables; `--` starts a comment that runs to the end of the
//! line. Numbers are kept as the text of their literal: what they are worth
//! as floating-point numbers is for the caller to work out.
use vstd::prelude::*;

use crate::text::{is_whitespace, is_whitespace_spec, push_char, string_from_chars, trim, trim_start_spec};

verus! {

/// The deepest table nesting the parser follows.
pub const MAX_DEPTH: usize = 64;

/// A parsed Lua value; numbers are the text of their literal.
#[derive(Debug)]
pub enum LuaValue {
    Str(String),
    Num(String),
    Bool(bool),
    Table(Vec<(LuaKey, LuaValue)>),
    Nil,
}

/// A table key: a string, or the text of a number literal.
#[derive(Debug, Clone)]
pub enum LuaKey {
    Str(String),
    Num(String),
}

/// The text-level view of a Lua value.
pub enum LuaView {
    Str(Seq<char>),
    Num(Seq<char>),
    Bool(bool),
    Table(Seq<(KeyView, LuaView)>),
    Nil,
}

/// The text-level view of a table key.
pub enum KeyView {
    Str(Seq<char>),
    Num(Seq<char>),
}

/// The view of a key.
pub open spec fn key_view(k: LuaKey) -> KeyView {
    match k {
        LuaKey::Str(s) => KeyView::Str(s@),
        LuaKey::Num(s) => KeyView::Num(s@),
    }
}

/// The view of a value.
pub open spec fn lua_view(v: LuaValue) -> LuaView
    decreases v,
{
    match v {
        LuaValue::Str(s) => LuaView::Str(s@),
        LuaValue::Num(s) => LuaView::Num(s@),
        LuaValue::Bool(b) => LuaView::Bool(b),
        LuaValue::Nil => LuaView::Nil,
        LuaValue::Table(t) => LuaView::Table(
            Seq::new(
                t@.len(),
                |i: int|
                    {
                        if 0 <= i < t@.len() {
                            (key_view(t@[i].0), lua_view(t@[i].1))
                        } else {
                            (KeyView::Num(Seq::empty()), LuaView::Nil)
                        }
                    },
            ),
        ),
    }
}

/// The outcome of parsing at a position: a result and the position after
/// it, an error message, or a stop where the parser would panic.
pub enum Step<T> {
    Done(T, int),
    Failed(Seq<char>),
    Stuck,
}

// ── Whitespace and comments ──────────────────────────────────────────────────

/// The position of the first non-whitespace character at or after `i`.
pub open spec fn ws_end(s: Seq<char>, i: int) -> int
    decreases s.len() - i,
{
    if 0 <= i < s.len() && is_whitespace_spec(s[i]) {
        ws_end(s, i + 1)
    } else {
        i
    }
}

/// The position of the first newline at or after `i` (the length if none).
pub open spec fn newline_at_or_after(s: Seq<char>, i: int) -> int
    decreases s.len() - i,
{
    if 0 <= i < s.len() && s[i] != '\n' {
        newline_at_or_after(s, i + 1)
    } else if i < 0 {
        0
    } else {
        i
    }
}

pub proof fn lemma_ws_end(s: Seq<char>, i: int)
    requires
        0 <= i <= s.len(),
    ensures
        i <= ws_end(s, i) <= s.len(),
    decreases s.len() - i,
{
    if i < s.len() && is_whitespace_spec(s[i]) {
        lemma_ws_end(s, i + 1);
    }
}

pub proof fn lemma_newline(s: Seq<char>, i: int)
    requires
        0 <= i <= s.len(),
    ensures
        i <= newline_at_or_after(s, i) <= s.len(),
    decreases s.len() - i,
{
    if i < s.len() && s[i] != '\n' {
        lemma_newline(s, i + 1);
    }
}

/// Whether a `--` comment starts at `j`.
pub open spec fn comment_at(s: Seq<char>, j: int) -> bool {
    0 <= j && j + 1 < s.len() && s[j] == '-' && s[j + 1] == '-'
}

/// The position after the whitespace and comments at `i`.
pub open spec fn skip_ws(s: Seq<char>, i: int) -> int
    decreases s.len() - i,
{
    if i < 0 || i > s.len() {
        i
    } else {
        let j = ws_end(s, i);
        if comment_at(s, j) {
            let k = newline_at_or_after(s, j);
            if k < s.len() {
                proof {
                    lemma_ws_end(s, i);
                    lemma_newline(s, j);
                }
                skip_ws(s, k + 1)
            } else {
                s.len() as int
            }
        } else {
            j
        }
    }
}

pub proof fn lemma_skip_ws(s: Seq<char>, i: int)
    requires
        0 <= i <= s.len(),
    ensures
        i <= skip_ws(s, i) <= s.len(),
    decreases s.len() - i,
{
    lemma_ws_end(s, i);
    let j = ws_end(s, i);
    if comment_at(s, j) {
        lemma_newline(s, j);
        let k = newline_at_or_after(s, j);
        if k < s.len() {
            lemma_skip_ws(s, k + 1);
        }
    }
}

fn ws_end_exec(s: &[char], i: usize) -> (r: usize)
    requires
        i <= s@.len(),
    ensures
        r as int == ws_end(s@, i as int),
{
    let mut j = i;
    while j < s.len() && is_whitespace(s[j])
        invariant
            i <= j <= s@.len(),
            ws_end(s@, i as int) == ws_end(s@, j as int),
        decreases s@.len() - j,
    {
        j += 1;
    }
    j
}

fn newline_exec(s: &[char], i: usize) -> (r: usize)
    requires
        i <= s@.len(),
    ensures
        r as int == newline_at_or_after(s@, i as int),
{
    let mut j = i;
    while j < s.len() && s[j] != '\n'
        invariant
            i <= j <= s@.len(),
            newline_at_or_after(s@, i as int) == newline_at_or_after(s@, j as int),
        decreases s@.len() - j,
    {
        j += 1;
    }
    j
}

/// The position after the whitespace and comments at `i`.
fn skip_ws_exec(s: &[char], i: usize) -> (r: usize)
    requires
        i <= s@.len(),
    ensures
        r as int == skip_ws(s@, i as int),
        i <= r <= s@.len(),
{
    let n = s.len();
    let mut p = i;
    proof {
        lemma_skip_ws(s@, i as int);
    }
    loop
        invariant
            i <= p <= n,
            n == s@.len(),
            skip_ws(s@, i as int) == skip_ws(s@, p as int),
            i <= skip_ws(s@, i as int) <= n,
        decreases n - p,
    {
        let j = ws_end_exec(s, p);
        proof {
            lemma_ws_end(s@, p as int);
        }
        if j < n && j + 1 < n && s[j] == '-' && s[j + 1] == '-' {
            let k = newline_exec(s, j);
            proof {
                lemma_newline(s@, j as int);
            }
            if k < n {
                p = k + 1;
            } else {
                return n;
            }
        } else {
            return j;
        }
    }
}

// ── Error texts ──────────────────────────────────────────────────────────────

/// The number of UTF-8 bytes that encode `c`.
pub open spec fn utf8_width(c: char) -> int {
    if (c as u32) < 0x80 {
        1
    } else if (c as u32) < 0x800 {
        2
    } else if (c as u32) < 0x10000 {
        3
    } else {
        4
    }
}

/// The number of UTF-8 bytes that encode `s`.
pub open spec fn utf8_len(s: Seq<char>) -> int
    decreases s.len(),
{
    if s.len() == 0 {
        0
    } else {
        utf8_width(s[0]) + utf8_len(s.drop_first())
    }
}

/// The first characters of `s` that take exactly `b` bytes; `None` when a
/// character straddles that point.
pub open spec fn prefix_of_bytes(s: Seq<char>, b: int) -> Option<Seq<char>>
    decreases s.len(),
{
    if b <= 0 {
        Some(Seq::empty())
    } else if s.len() == 0 {
        None
    } else if utf8_width(s[0]) > b {
        None
    } else {
        match prefix_of_bytes(s.drop_first(), b - utf8_width(s[0])) {
            Some(p) => Some(seq![s[0]] + p),
            None => None,
        }
    }
}

/// The result of std's `Debug` formatting of a string: the text in double
/// quotes, with quotes, backslashes and control or non-printable characters
/// escaped.
pub uninterp spec fn debug_quoted(s: Seq<char>) -> Seq<char>;

/// Formats a string as std's `Debug` does.
#[verifier::external_body]
fn debug_text(s: &str) -> (r: String)
    ensures
        r@ == debug_quoted(s@),
{
    format!("{:?}", s)
}

/// How an error shows the text at `i`: its first 30 bytes (all of it when
/// shorter) as std's `Debug` formats them; `None` when byte 30 falls inside
/// a character, where slicing the text panics.
pub open spec fn shown_text(s: Seq<char>, i: int) -> Option<Seq<char>> {
    let rest = s.subrange(i, s.len() as int);
    if utf8_len(rest) <= 30 {
        Some(debug_quoted(rest))
    } else {
        match prefix_of_bytes(rest, 30) {
            Some(p) => Some(debug_quoted(p)),
            None => None,
        }
    }
}

/// An error whose message ends with the text at `i`.
pub open spec fn failed_at<T>(s: Seq<char>, i: int, what: Seq<char>) -> Step<T> {
    match shown_text(s, i) {
        Some(t) => Step::Failed(what + t),
        None => Step::Stuck,
    }
}

fn char_width(c: char) -> (r: usize)
    ensures
        r as int == utf8_width(c),
{
    if (c as u32) < 0x80 {
        1
    } else if (c as u32) < 0x800 {
        2
    } else if (c as u32) < 0x10000 {
        3
    } else {
        4
    }
}

/// The error text for the text at `i`, when the parser can show it.
fn shown_text_exec(s: &[char], i: usize) -> (r: Option<String>)
    requires
        i <= s@.len(),
    ensures
        match shown_text(s@, i as int) {
            Some(t) => r matches Some(x) && x@ == t,
            None => r is None,
        },
{
    let n = s.len();
    let ghost rest = s@.subrange(i as int, n as int);
    let mut taken: Vec<char> = Vec::new();
    let mut bytes: usize = 0;
    let mut k = i;
    while k < n && bytes + char_width(s[k]) <= 30
        invariant
            i <= k <= n,
            n == s@.len(),
            bytes <= 30,
            taken@ == s@.subrange(i as int, k as int),
            bytes as int == utf8_len(taken@),
            rest == s@.subrange(i as int, n as int),
            utf8_len(rest) == bytes + utf8_len(s@.subrange(k as int, n as int)),
            prefix_of_bytes(rest, 30) == match prefix_of_bytes(s@.subrange(k as int, n as int), 30 - bytes) {
                Some(p) => Some(taken@ + p),
                None => None::<Seq<char>>,
            },
        decreases n - k,
    {
        let c = s[k];
        let ghost tail = s@.subrange(k as int, n as int);
        proof {
            assert(tail[0] == c);
            assert(tail.drop_first() =~= s@.subrange(k + 1, n as int));
            lemma_utf8_len_push(taken@, c);
            if 30 - bytes > 0 {
                match prefix_of_bytes(s@.subrange(k + 1, n as int), 30 - bytes - utf8_width(c)) {
                    Some(p) => {
                        assert(taken@ + (seq![c] + p) =~= taken@.push(c) + p);
                    },
                    None => {},
                }
            }
        }
        taken.push(c);
        bytes = bytes + char_width(c);
        k += 1;
        proof {
            assert(taken@ =~= s@.subrange(i as int, k as int));
        }
    }
    if k == n {
        proof {
            assert(s@.subrange(n as int, n as int) =~= Seq::<char>::empty());
            assert(taken@ =~= rest);
        }
        let t = string_from_chars(taken.as_slice());
        return Some(debug_text(t.as_str()));
    }
    proof {
        let tail = s@.subrange(k as int, n as int);
        assert(tail[0] == s@[k as int]);
        lemma_utf8_len_pos(tail);
    }
    if bytes == 30 {
        proof {
            assert(taken@ + Seq::<char>::empty() =~= taken@);
        }
        let t = string_from_chars(taken.as_slice());
        Some(debug_text(t.as_str()))
    } else {
        None
    }
}

proof fn lemma_utf8_len_push(s: Seq<char>, c: char)
    ensures
        utf8_len(s.push(c)) == utf8_len(s) + utf8_width(c),
    decreases s.len(),
{
    if s.len() == 0 {
        assert(s.push(c).drop_first() =~= Seq::<char>::empty());
        assert(s.push(c)[0] == c);
        assert(utf8_len(Seq::<char>::empty()) == 0);
    } else {
        assert(s.push(c).drop_first() =~= s.drop_first().push(c));
        assert(s.push(c)[0] == s[0]);
        lemma_utf8_len_push(s.drop_first(), c);
    }
}

proof fn lemma_utf8_len_pos(s: Seq<char>)
    requires
        s.len() > 0,
    ensures
        utf8_len(s) >= utf8_width(s[0]),
        utf8_width(s[0]) >= 1,
    decreases s.len(),
{
    lemma_utf8_len_nonneg(s.drop_first());
}

proof fn lemma_utf8_len_nonneg(s: Seq<char>)
    ensures
        utf8_len(s) >= 0,
    decreases s.len(),
{
    if s.len() > 0 {
        lemma_utf8_len_nonneg(s.drop_first());
    }
}

// ── Strings, numbers and keys ────────────────────────────────────────────────

/// What one escape `\c` stands for: the usual single characters, and the
/// backslash kept for any other `c`.
pub open spec fn lua_escape(c: char) -> Seq<char> {
    if c == 'n' {
        seq!['\n']
    } else if c == 'r' {
        seq!['\r']
    } else if c == 't' {
        seq!['\t']
    } else if c == '"' {
        seq!['"']
    } else if c == '\\' {
        seq!['\\']
    } else {
        seq!['\\', c]
    }
}

/// The body of a string literal whose opening quote ends before `j`: its
/// characters, escapes decoded, and the position after the closing quote.
pub open spec fn quoted_body(s: Seq<char>, j: int) -> Step<Seq<char>>
    decreases s.len() - j,
{
    if j < 0 || j >= s.len() {
        Step::Failed("Unterminated string literal"@)
    } else if s[j] == '"' {
        Step::Done(Seq::empty(), j + 1)
    } else if s[j] == '\\' {
        if j + 1 >= s.len() {
            Step::Failed("Unterminated escape sequence"@)
        } else {
            match quoted_body(s, j + 2) {
                Step::Done(r, p) => Step::Done(lua_escape(s[j + 1]) + r, p),
                Step::Failed(m) => Step::Failed(m),
                Step::Stuck => Step::Stuck,
            }
        }
    } else {
        match quoted_body(s, j + 1) {
            Step::Done(r, p) => Step::Done(seq![s[j]] + r, p),
            Step::Failed(m) => Step::Failed(m),
            Step::Stuck => Step::Stuck,
        }
    }
}

pub proof fn lemma_quoted_body(s: Seq<char>, j: int)
    ensures
        quoted_body(s, j) matches Step::Done(_, p) ==> j < p <= s.len(),
        !(quoted_body(s, j) is Stuck),
    decreases s.len() - j,
{
    if j < 0 || j >= s.len() {
    } else if s[j] == '"' {
    } else if s[j] == '\\' {
        if j + 1 < s.len() {
            lemma_quoted_body(s, j + 2);
        }
    } else {
        lemma_quoted_body(s, j + 1);
    }
}

fn quoted_exec(s: &[char], j: usize) -> (r: Result<(String, usize), String>)
    requires
        j <= s@.len(),
    ensures
        match quoted_body(s@, j as int) {
            Step::Done(t, p) => r matches Ok((x, q)) && x@ == t && q == p,
            Step::Failed(m) => r matches Err(e) && e@ == m,
            Step::Stuck => false,
        },
{
    proof {
        lemma_quoted_body(s@, j as int);
    }
    let n = s.len();
    let mut out = String::new();
    let mut i = j;
    while i < n
        invariant
            j <= i <= n,
            n == s@.len(),
            quoted_body(s@, j as int) == match quoted_body(s@, i as int) {
                Step::Done(t, p) => Step::Done(out@ + t, p),
                Step::Failed(m) => Step::Failed(m),
                Step::Stuck => Step::Stuck,
            },
            !(quoted_body(s@, j as int) is Stuck),
        decreases n - i,
    {
        let c = s[i];
        if c == '"' {
            assert(out@ + Seq::<char>::empty() =~= out@);
            return Ok((out, i + 1));
        }
        if c == '\\' {
            if i + 1 >= n {
                return Err("Unterminated escape sequence".to_owned());
            }
            let e = s[i + 1];
            let ghost before = out@;
            if e == 'n' {
                push_char(&mut out, '\n');
            } else if e == 'r' {
                push_char(&mut out, '\r');
            } else if e == 't' {
                push_char(&mut out, '\t');
            } else if e == '"' {
                push_char(&mut out, '"');
            } else if e == '\\' {
                push_char(&mut out, '\\');
            } else {
                push_char(&mut out, '\\');
                push_char(&mut out, e);
            }
            assert(out@ =~= before + lua_escape(e));
            proof {
                if let Step::Done(t, p) = quoted_body(s@, i + 2) {
                    assert(before + (lua_escape(e) + t) =~= out@ + t);
                }
            }
            i += 2;
        } else {
            let ghost before = out@;
            push_char(&mut out, c);
            proof {
                if let Step::Done(t, p) = quoted_body(s@, i + 1) {
                    assert(before + (seq![c] + t) =~= out@ + t);
                }
            }
            i += 1;
        }
    }
    Err("Unterminated string literal".to_owned())
}

/// A character that may appear in a number literal.
pub open spec fn is_number_char(c: char) -> bool {
    ('0' <= c && c <= '9') || c == '.' || c == '-' || c == 'e' || c == 'E' || c == '+'
}

/// The position of the first character at or after `i` that `keep` refuses.
pub open spec fn run_end(s: Seq<char>, i: int, keep: spec_fn(char) -> bool) -> int
    decreases s.len() - i,
{
    if 0 <= i < s.len() && keep(s[i]) {
        run_end(s, i + 1, keep)
    } else {
        i
    }
}

pub proof fn lemma_run_end(s: Seq<char>, i: int, keep: spec_fn(char) -> bool)
    requires
        0 <= i <= s.len(),
    ensures
        i <= run_end(s, i, keep) <= s.len(),
        forall|k: int| i <= k < run_end(s, i, keep) ==> keep(#[trigger] s[k]),
        run_end(s, i, keep) < s.len() ==> !keep(s[run_end(s, i, keep)]),
    decreases s.len() - i,
{
    if i < s.len() && keep(s[i]) {
        lemma_run_end(s, i + 1, keep);
    }
}

/// An ASCII digit.
pub open spec fn is_ascii_digit(c: char) -> bool {
    '0' <= c && c <= '9'
}

/// Whether `t` is a literal that std's `f64` parsing accepts, for texts made
/// of number characters: an optional sign, digits with an optional
/// fractional part (at least one digit in all), and an optional exponent of
/// `e` or `E`, an optional sign and at least one digit.
pub open spec fn float_literal(t: Seq<char>) -> bool {
    let a: int = if t.len() > 0 && (t[0] == '+' || t[0] == '-') {
        1
    } else {
        0
    };
    let d1 = run_end(t, a, |c: char| is_ascii_digit(c));
    let has_point = d1 < t.len() && t[d1] == '.';
    let d2 = if has_point {
        run_end(t, d1 + 1, |c: char| is_ascii_digit(c))
    } else {
        d1
    };
    let digits = (d1 - a) + if has_point {
        d2 - d1 - 1
    } else {
        0
    };
    if digits < 1 {
        false
    } else if d2 == t.len() {
        true
    } else if t[d2] == 'e' || t[d2] == 'E' {
        let b: int = if d2 + 1 < t.len() && (t[d2 + 1] == '+' || t[d2 + 1] == '-') {
            d2 + 2
        } else {
            d2 + 1
        };
        let d3 = run_end(t, b, |c: char| is_ascii_digit(c));
        d3 > b && d3 == t.len()
    } else {
        false
    }
}

/// The number literal at `i`: its text, or the error.
pub open spec fn number_at(s: Seq<char>, i: int) -> Step<Seq<char>> {
    let k = run_end(s, i, |c: char| is_number_char(c));
    if k == i {
        failed_at(s, i, "Expected number, found: "@)
    } else if !float_literal(s.subrange(i, k)) {
        Step::Failed("Invalid number literal: '"@ + s.subrange(i, k) + "'"@)
    } else {
        Step::Done(s.subrange(i, k), k)
    }
}

fn digits_end(t: &[char], i: usize) -> (r: usize)
    requires
        i <= t@.len(),
    ensures
        r as int == run_end(t@, i as int, |c: char| is_ascii_digit(c)),
{
    let mut k = i;
    while k < t.len() && '0' <= t[k] && t[k] <= '9'
        invariant
            i <= k <= t@.len(),
            run_end(t@, i as int, |c: char| is_ascii_digit(c)) == run_end(t@, k as int, |c: char| is_ascii_digit(c)),
        decreases t@.len() - k,
    {
        k += 1;
    }
    k
}

fn is_float_literal(t: &[char]) -> (r: bool)
    ensures
        r == float_literal(t@),
{
    let n = t.len();
    let a: usize = if n > 0 && (t[0] == '+' || t[0] == '-') {
        1
    } else {
        0
    };
    let d1 = digits_end(t, a);
    let has_point = d1 < n && t[d1] == '.';
    proof {
        lemma_run_end(t@, a as int, |c: char| is_ascii_digit(c));
    }
    let d2 = if has_point {
        digits_end(t, d1 + 1)
    } else {
        d1
    };
    proof {
        if has_point {
            lemma_run_end(t@, d1 + 1, |c: char| is_ascii_digit(c));
        }
    }
    let digits = (d1 - a) + if has_point {
        d2 - d1 - 1
    } else {
        0
    };
    if digits < 1 {
        false
    } else if d2 == n {
        true
    } else if t[d2] == 'e' || t[d2] == 'E' {
        let b: usize = if d2 + 1 < n && (t[d2 + 1] == '+' || t[d2 + 1] == '-') {
            d2 + 2
        } else {
            d2 + 1
        };
        let d3 = digits_end(t, b);
        d3 > b && d3 == n
    } else {
        false
    }
}

fn number_exec(s: &[char], i: usize) -> (r: Result<(String, usize), Option<String>>)
    requires
        i <= s@.len(),
    ensures
        match number_at(s@, i as int) {
            Step::Done(t, p) => r matches Ok((x, q)) && x@ == t && q == p,
            Step::Failed(m) => r matches Err(Some(e)) && e@ == m,
            Step::Stuck => r matches Err(None),
        },
{
    let n = s.len();
    let mut k = i;
    while k < n && (('0' <= s[k] && s[k] <= '9') || s[k] == '.' || s[k] == '-' || s[k] == 'e' || s[k] == 'E' || s[k] == '+')
        invariant
            i <= k <= n,
            n == s@.len(),
            run_end(s@, i as int, |c: char| is_number_char(c)) == run_end(s@, k as int, |c: char| is_number_char(c)),
        decreases n - k,
    {
        k += 1;
    }
    if k == i {
        let shown = shown_text_exec(s, i);
        let mut e = "Expected number, found: ".to_owned();
        match shown {
            Some(t) => e.append(t.as_str()),
            None => return Err(None),
        }
        return Err(Some(e));
    }
    let lit = crate::stat::slice_chars(s, i, k);
    let text = string_from_chars(lit.as_slice());
    if !is_float_literal(lit.as_slice()) {
        let mut e = "Invalid number literal: '".to_owned();
        e.append(text.as_str());
        e.append("'");
        return Err(Some(e));
    }
    Ok((text, k))
}

/// Whether `c` is alphabetic or numeric in Unicode (`char::is_alphanumeric`).
pub uninterp spec fn unicode_alphanumeric(c: char) -> bool;

/// Whether `c` is alphabetic or numeric in Unicode.
#[verifier::external_body]
fn is_alphanumeric(c: char) -> (r: bool)
    ensures
        r == unicode_alphanumeric(c),
{
    c.is_alphanumeric()
}

/// A character of a bare key.
pub open spec fn is_ident_char(c: char) -> bool {
    unicode_alphanumeric(c) || c == '_'
}

/// The table key at `i`, and the position after it.
pub open spec fn key_at(s: Seq<char>, i: int) -> Step<KeyView> {
    if 0 <= i < s.len() && s[i] == '[' {
        let j = skip_ws(s, i + 1);
        if j < s.len() && s[j] == '"' {
            match quoted_body(s, j + 1) {
                Step::Done(k, p) => {
                    let q = skip_ws(s, p);
                    if q < s.len() && s[q] == ']' {
                        Step::Done(KeyView::Str(k), q + 1)
                    } else {
                        Step::Failed("Expected ']' after string key"@)
                    }
                },
                Step::Failed(m) => Step::Failed(m),
                Step::Stuck => Step::Stuck,
            }
        } else {
            match number_at(s, j) {
                Step::Done(k, p) => {
                    let q = skip_ws(s, p);
                    if q < s.len() && s[q] == ']' {
                        Step::Done(KeyView::Num(k), q + 1)
                    } else {
                        Step::Failed("Expected ']' after numeric key"@)
                    }
                },
                Step::Failed(m) => Step::Failed(m),
                Step::Stuck => Step::Stuck,
            }
        }
    } else {
        let e = run_end(s, i, |c: char| is_ident_char(c));
        if e == i {
            failed_at(s, i, "Expected key, found: "@)
        } else {
            Step::Done(KeyView::Str(s.subrange(i, e)), e)
        }
    }
}

pub proof fn lemma_number_at(s: Seq<char>, i: int)
    requires
        0 <= i <= s.len(),
    ensures
        number_at(s, i) matches Step::Done(_, p) ==> i < p <= s.len(),
{
    lemma_run_end(s, i, |c: char| is_number_char(c));
}

pub proof fn lemma_key_at(s: Seq<char>, i: int)
    requires
        0 <= i <= s.len(),
    ensures
        key_at(s, i) matches Step::Done(_, p) ==> i < p <= s.len(),
{
    if i < s.len() && s[i] == '[' {
        lemma_skip_ws(s, i + 1);
        let j = skip_ws(s, i + 1);
        if j < s.len() && s[j] == '"' {
            lemma_quoted_body(s, j + 1);
            if let Step::Done(_, p) = quoted_body(s, j + 1) {
                lemma_skip_ws(s, p);
            }
        } else {
            lemma_number_at(s, j);
            if let Step::Done(_, p) = number_at(s, j) {
                lemma_skip_ws(s, p);
            }
        }
    } else {
        lemma_run_end(s, i, |c: char| is_ident_char(c));
    }
}

fn key_exec(s: &[char], i: usize) -> (r: Result<(LuaKey, usize), Option<String>>)
    requires
        i <= s@.len(),
    ensures
        match key_at(s@, i as int) {
            Step::Done(k, p) => r matches Ok((x, q)) && key_view(x) == k && q == p,
            Step::Failed(m) => r matches Err(Some(e)) && e@ == m,
            Step::Stuck => r matches Err(None),
        },
{
    let n = s.len();
    if i < n && s[i] == '[' {
        let j = skip_ws_exec(s, i + 1);
        if j < n && s[j] == '"' {
            proof {
                lemma_quoted_body(s@, j + 1);
            }
            let (k, p) = match quoted_exec(s, j + 1) {
                Ok(x) => x,
                Err(e) => return Err(Some(e)),
            };
            let q = skip_ws_exec(s, p);
            if q < n && s[q] == ']' {
                Ok((LuaKey::Str(k), q + 1))
            } else {
                Err(Some("Expected ']' after string key".to_owned()))
            }
        } else {
            let (k, p) = number_exec(s, j)?;
            proof {
                lemma_number_at(s@, j as int);
            }
            let q = skip_ws_exec(s, p);
            if q < n && s[q] == ']' {
                Ok((LuaKey::Num(k), q + 1))
            } else {
                Err(Some("Expected ']' after numeric key".to_owned()))
            }
        }
    } else {
        let mut e = i;
        while e < n && (is_alphanumeric(s[e]) || s[e] == '_')
            invariant
                i <= e <= n,
                n == s@.len(),
                run_end(s@, i as int, |c: char| is_ident_char(c)) == run_end(s@, e as int, |c: char| is_ident_char(c)),
            decreases n - e,
        {
            e += 1;
        }
        if e == i {
            let shown = shown_text_exec(s, i);
            let mut m = "Expected key, found: ".to_owned();
            match shown {
                Some(t) => m.append(t.as_str()),
                None => return Err(None),
            }
            return Err(Some(m));
        }
        let name = crate::stat::slice_chars(s, i, e);
        Ok((LuaKey::Str(string_from_chars(name.as_slice())), e))
    }
}

// ── Values and tables ────────────────────────────────────────────────────────

/// Whether `word` is written at `j`.
pub open spec fn word_at(s: Seq<char>, j: int, word: Seq<char>) -> bool {
    0 <= j && j + word.len() <= s.len() && s.subrange(j, j + word.len()) == word
}

/// The value at `i` (after whitespace and comments) with `depth` tables open
/// around it, and the position after it.
pub open spec fn value_at(s: Seq<char>, i: int, depth: nat) -> Step<LuaView>
    decreases s.len() - i, 1nat,
{
    if depth > MAX_DEPTH {
        Step::Failed("Table nesting depth exceeded"@)
    } else if i < 0 || i > s.len() {
        Step::Stuck
    } else {
        let j = skip_ws(s, i);
        if j < s.len() && s[j] == '{' {
            proof {
                lemma_skip_ws(s, i);
            }
            entries_at(s, j + 1, depth, Seq::empty())
        } else if j < s.len() && s[j] == '"' {
            match quoted_body(s, j + 1) {
                Step::Done(t, p) => Step::Done(LuaView::Str(t), p),
                Step::Failed(m) => Step::Failed(m),
                Step::Stuck => Step::Stuck,
            }
        } else if word_at(s, j, seq!['t', 'r', 'u', 'e']) {
            Step::Done(LuaView::Bool(true), j + 4)
        } else if word_at(s, j, seq!['f', 'a', 'l', 's', 'e']) {
            Step::Done(LuaView::Bool(false), j + 5)
        } else if word_at(s, j, seq!['n', 'i', 'l']) {
            Step::Done(LuaView::Nil, j + 3)
        } else {
            match number_at(s, j) {
                Step::Done(t, p) => Step::Done(LuaView::Num(t), p),
                Step::Failed(m) => Step::Failed(m),
                Step::Stuck => Step::Stuck,
            }
        }
    }
}

/// The rest of a table from `i`, after the entries `acc`: the table and the
/// position after its `}`. Entries are separated by `,` or `;`.
pub open spec fn entries_at(s: Seq<char>, i: int, depth: nat, acc: Seq<(KeyView, LuaView)>) -> Step<LuaView>
    decreases s.len() - i, 0nat,
{
    if i < 0 || i > s.len() {
        Step::Stuck
    } else {
        let j = skip_ws(s, i);
        if j < s.len() && s[j] == '}' {
            Step::Done(LuaView::Table(acc), j + 1)
        } else if j >= s.len() {
            Step::Failed("Unexpected end of input inside table"@)
        } else if s[j] == ',' || s[j] == ';' {
            proof {
                lemma_skip_ws(s, i);
            }
            entries_at(s, j + 1, depth, acc)
        } else {
            match key_at(s, j) {
                Step::Done(k, p) => {
                    let q = skip_ws(s, p);
                    if !(q < s.len() && s[q] == '=') {
                        failed_at(s, q, "Expected '=' after key, found: "@)
                    } else {
                        let r = skip_ws(s, q + 1);
                        proof {
                            lemma_skip_ws(s, i);
                            lemma_key_at(s, j);
                            lemma_skip_ws(s, p);
                            lemma_skip_ws(s, q + 1);
                        }
                        match value_at(s, r, depth + 1) {
                            Step::Done(v, p2) => if p2 <= i || p2 > s.len() {
                                Step::Stuck
                            } else {
                                let t = skip_ws(s, p2);
                                let t2 = if t < s.len() && (s[t] == ',' || s[t] == ';') {
                                    t + 1
                                } else {
                                    t
                                };
                                proof {
                                    lemma_skip_ws(s, p2);
                                }
                                entries_at(s, t2, depth, acc.push((k, v)))
                            },
                            Step::Failed(m) => Step::Failed(m),
                            Step::Stuck => Step::Stuck,
                        }
                    }
                },
                Step::Failed(m) => Step::Failed(m),
                Step::Stuck => Step::Stuck,
            }
        }
    }
}

/// The views of a table's entries.
pub open spec fn entries_view(t: Seq<(LuaKey, LuaValue)>) -> Seq<(KeyView, LuaView)> {
    Seq::new(t.len(), |i: int| (key_view(t[i].0), lua_view(t[i].1)))
}

/// The view of a table is the views of its entries.
pub proof fn lemma_table_view(t: Vec<(LuaKey, LuaValue)>)
    ensures
        lua_view(LuaValue::Table(t)) == LuaView::Table(entries_view(t@)),
{
    let v = lua_view(LuaValue::Table(t));
    assert(v->Table_0 =~= entries_view(t@));
}

fn value_exec(s: &[char], i: usize, depth: usize) -> (r: Result<(LuaValue, usize), Option<String>>)
    requires
        i <= s@.len(),
    ensures
        match value_at(s@, i as int, depth as nat) {
            Step::Done(v, p) => r matches Ok((x, q)) && lua_view(x) == v && q == p && i < p <= s@.len(),
            Step::Failed(m) => r matches Err(Some(e)) && e@ == m,
            Step::Stuck => r matches Err(None),
        },
    decreases s@.len() - i, 1nat,
{
    if depth > MAX_DEPTH {
        return Err(Some("Table nesting depth exceeded".to_owned()));
    }
    let n = s.len();
    let j = skip_ws_exec(s, i);
    if j < n && s[j] == '{' {
        return entries_exec(s, j + 1, depth);
    }
    if j < n && s[j] == '"' {
        proof {
            lemma_quoted_body(s@, j + 1);
        }
        return match quoted_exec(s, j + 1) {
            Ok((t, p)) => Ok((LuaValue::Str(t), p)),
            Err(e) => Err(Some(e)),
        };
    }
    let tr: Vec<char> = vec!['t', 'r', 'u', 'e'];
    let fa: Vec<char> = vec!['f', 'a', 'l', 's', 'e'];
    let ni: Vec<char> = vec!['n', 'i', 'l'];
    assert(tr@ =~= seq!['t', 'r', 'u', 'e']);
    assert(fa@ =~= seq!['f', 'a', 'l', 's', 'e']);
    assert(ni@ =~= seq!['n', 'i', 'l']);
    if word_exec(s, j, &tr) {
        return Ok((LuaValue::Bool(true), j + 4));
    }
    if word_exec(s, j, &fa) {
        return Ok((LuaValue::Bool(false), j + 5));
    }
    if word_exec(s, j, &ni) {
        return Ok((LuaValue::Nil, j + 3));
    }
    proof {
        lemma_number_at(s@, j as int);
    }
    let (t, p) = number_exec(s, j)?;
    Ok((LuaValue::Num(t), p))
}

fn word_exec(s: &[char], j: usize, word: &Vec<char>) -> (r: bool)
    requires
        j <= s@.len(),
    ensures
        r == word_at(s@, j as int, word@),
{
    let n = s.len();
    let m = word.len();
    if m > n - j {
        return false;
    }
    let mut k: usize = 0;
    while k < m
        invariant
            k <= m,
            m == word@.len(),
            n == s@.len(),
            j + m <= n,
            forall|x: int| 0 <= x < k ==> s@[j + x] == word@[x],
        decreases m - k,
    {
        if s[j + k] != word[k] {
            assert(s@.subrange(j as int, j + m)[k as int] != word@[k as int]);
            return false;
        }
        k += 1;
    }
    assert(s@.subrange(j as int, j + m) =~= word@);
    true
}

fn entries_exec(s: &[char], i: usize, depth: usize) -> (r: Result<(LuaValue, usize), Option<String>>)
    requires
        i <= s@.len(),
        depth <= MAX_DEPTH,
    ensures
        match entries_at(s@, i as int, depth as nat, Seq::empty()) {
            Step::Done(v, p) => r matches Ok((x, q)) && lua_view(x) == v && q == p && i < p <= s@.len(),
            Step::Failed(m) => r matches Err(Some(e)) && e@ == m,
            Step::Stuck => r matches Err(None),
        },
    decreases s@.len() - i, 0nat,
{
    let n = s.len();
    let mut entries: Vec<(LuaKey, LuaValue)> = Vec::new();
    let mut pos = i;
    assert(entries_view(entries@) =~= Seq::empty());
    loop
        invariant
            i <= pos <= n,
            n == s@.len(),
            depth <= MAX_DEPTH,
            entries_at(s@, i as int, depth as nat, Seq::empty()) == entries_at(
                s@,
                pos as int,
                depth as nat,
                entries_view(entries@),
            ),
        decreases n - pos,
    {
        let ghost acc = entries_view(entries@);
        let j = skip_ws_exec(s, pos);
        if j < n && s[j] == '}' {
            proof {
                lemma_table_view(entries);
            }
            return Ok((LuaValue::Table(entries), j + 1));
        }
        if j >= n {
            return Err(Some("Unexpected end of input inside table".to_owned()));
        }
        if s[j] == ',' || s[j] == ';' {
            pos = j + 1;
            continue;
        }
        proof {
            lemma_key_at(s@, j as int);
        }
        let (k, p) = key_exec(s, j)?;
        let q = skip_ws_exec(s, p);
        if !(q < n && s[q] == '=') {
            let shown = shown_text_exec(s, q);
            let mut m = "Expected '=' after key, found: ".to_owned();
            match shown {
                Some(t) => m.append(t.as_str()),
                None => return Err(None),
            }
            return Err(Some(m));
        }
        let r = skip_ws_exec(s, q + 1);
        let (v, p2) = value_exec(s, r, depth + 1)?;
        let t = skip_ws_exec(s, p2);
        let t2 = if t < n && (s[t] == ',' || s[t] == ';') {
            t + 1
        } else {
            t
        };
        let ghost kv = key_view(k);
        let ghost vv = lua_view(v);
        entries.push((k, v));
        proof {
            assert(entries_view(entries@) =~= acc.push((kv, vv)));
        }
        pos = t2;
    }
}

/// The value at the start of `s` and the text after it; `Err(None)` where
/// the parse ends in an error that cannot show the text it stopped at.
fn value_steps(s: &str, depth: usize) -> (r: Result<(LuaValue, String), Option<String>>)
    ensures
        match value_at(s@, 0, depth as nat) {
            Step::Done(v, p) => r matches Ok((x, rest)) && lua_view(x) == v && rest@ == s@.subrange(p, s@.len() as int),
            Step::Failed(m) => r matches Err(Some(e)) && e@ == m,
            Step::Stuck => r matches Err(None),
        },
{
    let v = crate::text::chars_of(s);
    let (x, p) = value_exec(v.as_slice(), 0, depth)?;
    let rest = crate::stat::slice_chars(v.as_slice(), p, v.len());
    Ok((x, string_from_chars(rest.as_slice())))
}

/// Parses the value at the start of `s` with `depth` tables open around it;
/// returns it with the text after it.
pub fn parse_value(s: &str, depth: usize) -> (r: Result<(LuaValue, String), String>)
    requires
        !(value_at(s@, 0, depth as nat) is Stuck),
    ensures
        match value_at(s@, 0, depth as nat) {
            Step::Done(v, p) => r matches Ok((x, rest)) && lua_view(x) == v && rest@ == s@.subrange(p, s@.len() as int),
            Step::Failed(m) => r matches Err(e) && e@ == m,
            Step::Stuck => false,
        },
{
    match value_steps(s, depth) {
        Ok(x) => Ok(x),
        Err(Some(e)) => Err(e),
        Err(None) => {
            proof {
                assert(false);
            }
            Err(String::new())
        },
    }
}

/// `parse_value` where its error message can show the text it stopped at;
/// `None` where it cannot (the message would cut a character in two).
pub fn parse_value_checked(s: &str, depth: usize) -> (r: Option<Result<(LuaValue, String), String>>)
    ensures
        match value_at(s@, 0, depth as nat) {
            Step::Done(v, p) => r matches Some(Ok((x, rest))) && lua_view(x) == v && rest@ == s@.subrange(p, s@.len() as int),
            Step::Failed(m) => r matches Some(Err(e)) && e@ == m,
            Step::Stuck => r is None,
        },
{
    match value_steps(s, depth) {
        Err(None) => None,
        _ => Some(parse_value(s, depth)),
    }
}

/// The text a plugin data file holds its table in: trimmed, without a
/// leading `return`, and without the whitespace after it.
pub open spec fn table_text(src: Seq<char>) -> Seq<char> {
    let t = crate::text::trim_spec(src);
    let u = if t.len() >= 6 && t.subrange(0, 6) == seq!['r', 'e', 't', 'u', 'r', 'n'] {
        t.subrange(6, t.len() as int)
    } else {
        t
    };
    trim_start_spec(u)
}

/// The text of a plugin data file with the leading `return` taken off, as
/// `table_text` says.
#[verifier::rlimit(40)]
fn table_text_exec(src: &str) -> (r: String)
    ensures
        r@ == table_text(src@),
{
    let t = trim(src);
    let tc = crate::text::chars_of(t.as_str());
    let ret: Vec<char> = vec!['r', 'e', 't', 'u', 'r', 'n'];
    assert(ret@ =~= seq!['r', 'e', 't', 'u', 'r', 'n']);
    let has_return = word_exec(tc.as_slice(), 0, &ret);
    proof {
        if tc@.len() >= 6 {
            assert(tc@.subrange(0, 0int + 6) =~= tc@.subrange(0, 6));
        }
        assert(has_return == (tc@.len() >= 6 && tc@.subrange(0, 6) == seq!['r', 'e', 't', 'u', 'r', 'n']));
    }
    let from: usize = if has_return {
        6
    } else {
        0
    };
    let k = crate::text::skip_whitespace(tc.as_slice(), from);
    let body = crate::stat::slice_chars(tc.as_slice(), k, tc.len());
    proof {
        let u = tc@.subrange(from as int, tc@.len() as int);
        assert(body@ =~= u.subrange(k - from, u.len() as int));
        assert(from == 0 ==> u =~= tc@);
    }
    string_from_chars(body.as_slice())
}

/// Parses a plugin data file's text: `return` and one value.
pub fn parse_plugindata(src: &str) -> (r: Result<LuaValue, String>)
    requires
        !(value_at(table_text(src@), 0, 0) is Stuck),
    ensures
        match value_at(table_text(src@), 0, 0) {
            Step::Done(v, p) => r matches Ok(x) && lua_view(x) == v,
            Step::Failed(m) => r matches Err(e) && e@ == m,
            Step::Stuck => false,
        },
{
    let text = table_text_exec(src);
    let (x, _) = parse_value(text.as_str(), 0)?;
    Ok(x)
}

/// `parse_plugindata` where its error message can show the text it stopped
/// at; `None` where it cannot.
pub fn parse_plugindata_checked(src: &str) -> (r: Option<Result<LuaValue, String>>)
    ensures
        match value_at(table_text(src@), 0, 0) {
            Step::Done(v, p) => r matches Some(Ok(x)) && lua_view(x) == v,
            Step::Failed(m) => r matches Some(Err(e)) && e@ == m,
            Step::Stuck => r is None,
        },
{
    let text = table_text_exec(src);
    match value_steps(text.as_str(), 0) {
        Err(None) => None,
        _ => Some(parse_plugindata(src)),
    }
}

// ── Reading an export's fields ───────────────────────────────────────────────

/// What a plugin export file says of the character, before any item lookup.
/// Numbers are whole numbers here: the caller has read them from the number
/// literals of the file.
#[derive(Debug, PartialEq, Eq)]
pub struct PluginExport {
    pub character: String,
    /// Character class, such as "Lore-master" or "Guardian".
    pub class: String,
    /// Base primary stats (Might, Agility, Vitality, Will, Fate) before gear.
    pub base_stats: std::collections::HashMap<String, i64>,
    /// Character level, where the export has one.
    pub level: Option<u32>,
    /// Max Morale as the in-game panel showed it at export time.
    pub max_morale: Option<i64>,
    /// Max Power, measured the same way as `max_morale`.
    pub max_power: Option<i64>,
    /// Number of effects active at export time.
    pub active_effects: Option<u32>,
    /// Equipped item names in slot order, duplicates kept.
    pub equipped: Vec<String>,
}

/// Whether a table entry has the string key `key`.
pub open spec fn has_key(e: (LuaKey, LuaValue), key: Seq<char>) -> bool {
    match e.0 {
        LuaKey::Str(k) => k@ == key,
        LuaKey::Num(_) => false,
    }
}

/// The first entry at or after `i` with the string key `key`.
pub open spec fn key_index_from(t: Seq<(LuaKey, LuaValue)>, key: Seq<char>, i: int) -> Option<int>
    decreases t.len() - i,
{
    if i < 0 || i >= t.len() {
        None
    } else if has_key(t[i], key) {
        Some(i)
    } else {
        key_index_from(t, key, i + 1)
    }
}

/// The value of the first entry with the string key `key`.
pub open spec fn table_lookup(t: Seq<(LuaKey, LuaValue)>, key: Seq<char>) -> Option<LuaValue> {
    match key_index_from(t, key, 0) {
        Some(i) => Some(t[i].1),
        None => None,
    }
}

proof fn lemma_key_index_from(t: Seq<(LuaKey, LuaValue)>, key: Seq<char>, i: int)
    requires
        0 <= i,
    ensures
        key_index_from(t, key, i) matches Some(k) ==> i <= k < t.len() && has_key(t[k], key),
    decreases t.len() - i,
{
    if i < t.len() && !has_key(t[i], key) {
        lemma_key_index_from(t, key, i + 1);
    }
}

/// Whether `k` is the string key `key`.
fn key_matches(k: &LuaKey, key: &str) -> (r: bool)
    ensures
        r == match *k {
            LuaKey::Str(s) => s@ == key@,
            LuaKey::Num(_) => false,
        },
{
    match k {
        LuaKey::Str(s) => crate::text::str_eq(s.as_str(), key),
        LuaKey::Num(_) => false,
    }
}

/// The value of the first entry of `tbl` with the string key `key`.
pub fn table_get<'a>(tbl: &'a Vec<(LuaKey, LuaValue)>, key: &str) -> (r: Option<&'a LuaValue>)
    ensures
        match table_lookup(tbl@, key@) {
            Some(v) => r matches Some(x) && *x == v,
            None => r is None,
        },
{
    let n = tbl.len();
    let mut i: usize = 0;
    while i < n
        invariant
            i <= n,
            n == tbl@.len(),
            key_index_from(tbl@, key@, 0) == key_index_from(tbl@, key@, i as int),
        decreases n - i,
    {
        if key_matches(&tbl[i].0, key) {
            return Some(&tbl[i].1);
        }
        i += 1;
    }
    None
}

/// The string at `key`, or "Unknown" where there is none.
pub fn text_field(tbl: &Vec<(LuaKey, LuaValue)>, key: &str) -> (r: String)
    ensures
        r@ == match table_lookup(tbl@, key@) {
            Some(LuaValue::Str(s)) => s@,
            _ => "Unknown"@,
        },
{
    match table_get(tbl, key) {
        Some(LuaValue::Str(s)) => s.clone(),
        _ => "Unknown".to_owned(),
    }
}

/// The number literal at `key`, where the value there is a number.
pub fn number_field(tbl: &Vec<(LuaKey, LuaValue)>, key: &str) -> (r: Option<String>)
    ensures
        match table_lookup(tbl@, key@) {
            Some(LuaValue::Num(n)) => r matches Some(x) && x@ == n@,
            _ => r is None,
        },
{
    match table_get(tbl, key) {
        Some(LuaValue::Num(n)) => Some(n.clone()),
        _ => None,
    }
}

/// The view of a list of text pairs.
pub open spec fn pairs_view(v: Seq<(String, String)>) -> Seq<(Seq<char>, Seq<char>)> {
    Seq::new(v.len(), |i: int| (v[i].0@, v[i].1@))
}

/// The `(index, string)` entries of a Lua array in file order: entries with
/// a number key and a string value, the others left out.
pub open spec fn array_pairs(t: Seq<(LuaKey, LuaValue)>) -> Seq<(Seq<char>, Seq<char>)>
    decreases t.len(),
{
    if t.len() == 0 {
        Seq::empty()
    } else {
        let rest = array_pairs(t.drop_last());
        match t.last() {
            (LuaKey::Num(n), LuaValue::Str(s)) => rest.push((n@, s@)),
            _ => rest,
        }
    }
}

/// The `(index literal, string)` entries of the array at `key`, in file
/// order; none where `key` is missing or holds no table. The caller orders
/// them by their index.
pub fn string_array_entries(tbl: &Vec<(LuaKey, LuaValue)>, key: &str) -> (r: Vec<(String, String)>)
    ensures
        pairs_view(r@) == match table_lookup(tbl@, key@) {
            Some(LuaValue::Table(e)) => array_pairs(e@),
            _ => Seq::empty(),
        },
{
    let mut out: Vec<(String, String)> = Vec::new();
    match table_get(tbl, key) {
        Some(LuaValue::Table(entries)) => {
            let n = entries.len();
            let mut i: usize = 0;
            assert(entries@.subrange(0, 0) =~= Seq::<(LuaKey, LuaValue)>::empty());
            assert(pairs_view(out@) =~= Seq::empty());
            while i < n
                invariant
                    i <= n,
                    n == entries@.len(),
                    pairs_view(out@) == array_pairs(entries@.subrange(0, i as int)),
                decreases n - i,
            {
                let ghost before = out@;
                assert(entries@.subrange(0, i + 1).drop_last() =~= entries@.subrange(0, i as int));
                match (&entries[i].0, &entries[i].1) {
                    (LuaKey::Num(idx), LuaValue::Str(name)) => {
                        out.push((idx.clone(), name.clone()));
                        assert(pairs_view(out@) =~= pairs_view(before).push((idx@, name@)));
                    },
                    _ => {},
                }
                i += 1;
            }
            assert(entries@.subrange(0, n as int) =~= entries@);
        },
        _ => {},
    }
    out
}

/// The `baseStats` methods of the export, each with the stat it reads.
pub open spec fn base_stat_methods() -> Seq<(Seq<char>, Seq<char>)> {
    seq![
        ("GetBaseMight"@, "Might"@),
        ("GetBaseAgility"@, "Agility"@),
        ("GetBaseVitality"@, "Vitality"@),
        ("GetBaseWill"@, "Will"@),
        ("GetBaseFate"@, "Fate"@),
    ]
}

/// The number literal at `key` of a table, where the value there is a number.
pub open spec fn number_at_key(t: Seq<(LuaKey, LuaValue)>, key: Seq<char>) -> Option<Seq<char>> {
    match table_lookup(t, key) {
        Some(LuaValue::Num(n)) => Some(n@),
        _ => None,
    }
}

/// `(stat, literal)` for each method of `ms`, in order, whose value in the
/// table is a number.
pub open spec fn stat_literals(t: Seq<(LuaKey, LuaValue)>, ms: Seq<(Seq<char>, Seq<char>)>) -> Seq<(Seq<char>, Seq<char>)>
    decreases ms.len(),
{
    if ms.len() == 0 {
        Seq::empty()
    } else {
        let rest = stat_literals(t, ms.drop_last());
        match number_at_key(t, ms.last().0) {
            Some(n) => rest.push((ms.last().1, n)),
            None => rest,
        }
    }
}

/// The base stats of an export as `(stat, number literal)`: for each of
/// Might, Agility, Vitality, Will and Fate in that order, the number its
/// `GetBase...` method has in the `baseStats` table; none where the export
/// has no such table.
pub fn base_stat_literals(root: &Vec<(LuaKey, LuaValue)>) -> (r: Vec<(String, String)>)
    ensures
        pairs_view(r@) == match table_lookup(root@, "baseStats"@) {
            Some(LuaValue::Table(e)) => stat_literals(e@, base_stat_methods()),
            _ => Seq::empty(),
        },
{
    let mut out: Vec<(String, String)> = Vec::new();
    match table_get(root, "baseStats") {
        Some(LuaValue::Table(bs)) => {
            let methods: [(&str, &str); 5] = [
                ("GetBaseMight", "Might"),
                ("GetBaseAgility", "Agility"),
                ("GetBaseVitality", "Vitality"),
                ("GetBaseWill", "Will"),
                ("GetBaseFate", "Fate"),
            ];
            let ghost ms = base_stat_methods();
            proof {
                reveal_strlit("GetBaseMight");
                reveal_strlit("Might");
                reveal_strlit("GetBaseAgility");
                reveal_strlit("Agility");
                reveal_strlit("GetBaseVitality");
                reveal_strlit("Vitality");
                reveal_strlit("GetBaseWill");
                reveal_strlit("Will");
                reveal_strlit("GetBaseFate");
                reveal_strlit("Fate");
            }
            assert(pairs_view(out@) =~= Seq::empty());
            assert(ms.subrange(0, 0) =~= Seq::<(Seq<char>, Seq<char>)>::empty());
            let mut i: usize = 0;
            while i < 5
                invariant
                    i <= 5,
                    ms == base_stat_methods(),
                    forall|k: int| 0 <= k < 5 ==> (#[trigger] methods@[k]).0@ == ms[k].0 && methods@[k].1@ == ms[k].1,
                    pairs_view(out@) == stat_literals(bs@, ms.subrange(0, i as int)),
                decreases 5 - i,
            {
                let (method, stat) = methods[i];
                let ghost before = out@;
                assert(ms.subrange(0, i + 1).drop_last() =~= ms.subrange(0, i as int));
                match number_field(bs, method) {
                    Some(n) => {
                        out.push((stat.to_owned(), n));
                        assert(pairs_view(out@) =~= pairs_view(before).push((stat@, n@)));
                    },
                    None => {},
                }
                i += 1;
            }
            assert(ms.subrange(0, 5) =~= ms);
        },
        _ => {},
    }
    out
}

} // verus!
