//! A JSON document model: a tagged value tree whose numbers keep their
//! decimal source text, so that documents survive a save/load round trip
//! without any floating-point rounding.

use vstd::prelude::*;
use vstd::string::StrSliceExecFns;

verus! {

/// Mathematical model of a JSON value, used by all contracts.
pub enum Jv {
    Null,
    Bool(bool),
    Num(Seq<char>),
    Str(Seq<char>),
    Arr(Seq<Jv>),
    Obj(Seq<(Seq<char>, Jv)>),
}

/// A JSON number, kept as its decimal source text (e.g. `"30.5"`).
///
/// Keeping the text avoids binary floating point entirely and makes
/// serialization the identity on numbers.
#[derive(Debug, Clone)]
pub struct JsonNum {
    pub text: String,
}

/// Executable JSON value.
#[derive(Debug)]
pub enum Json {
    Null,
    Bool(bool),
    Num(JsonNum),
    Str(String),
    Arr(Vec<Json>),
    Obj(Vec<(String, Json)>),
}

impl DeepView for Json {
    type V = Jv;

    open spec fn deep_view(&self) -> Jv
        decreases self,
    {
        match self {
            Json::Null => Jv::Null,
            Json::Bool(b) => Jv::Bool(*b),
            Json::Num(n) => Jv::Num(n.text@),
            Json::Str(s) => Jv::Str(s@),
            Json::Arr(a) => Jv::Arr(arr_view(a@)),
            Json::Obj(o) => Jv::Obj(obj_view(o@)),
        }
    }
}

/// Model of an array's items.
pub open spec fn arr_view(a: Seq<Json>) -> Seq<Jv>
    decreases a,
{
    Seq::new(a.len(), |i: int| if 0 <= i < a.len() { a[i].deep_view() } else { Jv::Null })
}

/// Model of an object's entries.
pub open spec fn obj_view(o: Seq<(String, Json)>) -> Seq<(Seq<char>, Jv)>
    decreases o,
{
    Seq::new(
        o.len(),
        |i: int| if 0 <= i < o.len() { entry_view(o[i]) } else { (Seq::empty(), Jv::Null) },
    )
}

/// Model of one object entry.
pub open spec fn entry_view(e: (String, Json)) -> (Seq<char>, Jv)
    decreases e,
{
    (e.0@, e.1.deep_view())
}

// ---------------------------------------------------------------------------
// Number literals
//
// The grammar is JSON's: `-? (0 | [1-9][0-9]*) (. [0-9]+)? ([eE] [+-]? [0-9]+)?`,
// checked by a small automaton whose states are:
//   0 start, 1 after minus, 2 integer part is a lone zero, 3 integer digits,
//   4 after decimal point, 5 fraction digits, 6 after exponent letter,
//   7 after exponent sign, 8 exponent digits, -1 reject.
// ---------------------------------------------------------------------------

pub open spec fn is_digit(c: char) -> bool {
    '0' <= c && c <= '9'
}

pub open spec fn num_step(st: int, c: char) -> int {
    if st == 0 {
        if c == '-' { 1 } else if c == '0' { 2 } else if '1' <= c && c <= '9' { 3 } else { -1 }
    } else if st == 1 {
        if c == '0' { 2 } else if '1' <= c && c <= '9' { 3 } else { -1 }
    } else if st == 2 {
        if c == '.' { 4 } else if c == 'e' || c == 'E' { 6 } else { -1 }
    } else if st == 3 {
        if is_digit(c) { 3 } else if c == '.' { 4 } else if c == 'e' || c == 'E' { 6 } else { -1 }
    } else if st == 4 {
        if is_digit(c) { 5 } else { -1 }
    } else if st == 5 {
        if is_digit(c) { 5 } else if c == 'e' || c == 'E' { 6 } else { -1 }
    } else if st == 6 {
        if c == '+' || c == '-' { 7 } else if is_digit(c) { 8 } else { -1 }
    } else if st == 7 {
        if is_digit(c) { 8 } else { -1 }
    } else if st == 8 {
        if is_digit(c) { 8 } else { -1 }
    } else {
        -1
    }
}

/// Automaton state after reading all of `s` from state `st`.
pub open spec fn num_state(st: int, s: Seq<char>) -> int
    decreases s.len(),
{
    if s.len() == 0 {
        st
    } else {
        num_state(num_step(st, s[0]), s.drop_first())
    }
}

pub open spec fn num_accepting(st: int) -> bool {
    st == 2 || st == 3 || st == 5 || st == 8
}

/// Whether `s` is a well-formed JSON number literal.
pub open spec fn is_num_lit(s: Seq<char>) -> bool {
    num_accepting(num_state(0, s))
}

pub proof fn lemma_num_state_snoc(st: int, s: Seq<char>, c: char)
    ensures
        num_state(st, s.push(c)) == num_step(num_state(st, s), c),
    decreases s.len(),
{
    if s.len() == 0 {
        assert(s.push(c)[0] == c);
        assert(s.push(c).drop_first() =~= s);
        assert(num_state(st, s.push(c)) == num_state(num_step(st, c), s));
        assert(num_state(st, s) == st);
    } else {
        assert(s.push(c)[0] == s[0]);
        assert(s.push(c).drop_first() =~= s.drop_first().push(c));
        lemma_num_state_snoc(num_step(st, s[0]), s.drop_first(), c);
        assert(num_state(st, s.push(c)) == num_state(num_step(st, s[0]), s.drop_first().push(c)));
        assert(num_state(st, s) == num_state(num_step(st, s[0]), s.drop_first()));
    }
}

/// Checks a sequence of characters against the JSON number grammar.
pub fn check_num_chars(cs: &Vec<char>) -> (r: bool)
    ensures
        r == is_num_lit(cs@),
{
    let mut st: i32 = 0;
    let mut i: usize = 0;
    while i < cs.len()
        invariant
            0 <= i <= cs.len(),
            -1 <= st <= 8,
            st as int == num_state(0, cs@.take(i as int)),
        decreases cs.len() - i,
    {
        let c = cs[i];
        let next: i32 = if st == 0 {
            if c == '-' { 1 } else if c == '0' { 2 } else if '1' <= c && c <= '9' { 3 } else { -1 }
        } else if st == 1 {
            if c == '0' { 2 } else if '1' <= c && c <= '9' { 3 } else { -1 }
        } else if st == 2 {
            if c == '.' { 4 } else if c == 'e' || c == 'E' { 6 } else { -1 }
        } else if st == 3 {
            if '0' <= c && c <= '9' { 3 } else if c == '.' { 4 } else if c == 'e' || c == 'E' { 6 } else { -1 }
        } else if st == 4 {
            if '0' <= c && c <= '9' { 5 } else { -1 }
        } else if st == 5 {
            if '0' <= c && c <= '9' { 5 } else if c == 'e' || c == 'E' { 6 } else { -1 }
        } else if st == 6 {
            if c == '+' || c == '-' { 7 } else if '0' <= c && c <= '9' { 8 } else { -1 }
        } else if st == 7 {
            if '0' <= c && c <= '9' { 8 } else { -1 }
        } else if st == 8 {
            if '0' <= c && c <= '9' { 8 } else { -1 }
        } else {
            -1
        };
        proof {
            assert(next as int == num_step(st as int, c));
            lemma_num_state_snoc(0, cs@.take(i as int), c);
            assert(cs@.take(i as int).push(c) =~= cs@.take(i as int + 1));
        }
        st = next;
        i = i + 1;
    }
    proof {
        assert(cs@.take(cs.len() as int) =~= cs@);
    }
    st == 2 || st == 3 || st == 5 || st == 8
}

// ---------------------------------------------------------------------------
// Well-formedness: every number in the tree is a valid literal.
// ---------------------------------------------------------------------------

pub open spec fn jv_wf(v: Jv) -> bool
    decreases v,
{
    match v {
        Jv::Null => true,
        Jv::Bool(_) => true,
        Jv::Num(t) => is_num_lit(t),
        Jv::Str(_) => true,
        Jv::Arr(es) => jv_wf_seq(es),
        Jv::Obj(kvs) => jv_wf_entries(kvs),
    }
}

/// Every item of the sequence is well formed.
pub open spec fn jv_wf_seq(es: Seq<Jv>) -> bool
    decreases es,
{
    if es.len() == 0 {
        true
    } else {
        jv_wf(es[0]) && jv_wf_seq(es.drop_first())
    }
}

/// Every entry's value is well formed.
pub open spec fn jv_wf_entries(kvs: Seq<(Seq<char>, Jv)>) -> bool
    decreases kvs,
{
    if kvs.len() == 0 {
        true
    } else {
        jv_wf(kvs[0].1) && jv_wf_entries(kvs.drop_first())
    }
}

// ---------------------------------------------------------------------------
// Serialization (compact form, no whitespace).
// ---------------------------------------------------------------------------

/// The hexadecimal digit for `n` in 0..16.
pub open spec fn hex_digit(n: int) -> char {
    if n == 0 { '0' } else if n == 1 { '1' } else if n == 2 { '2' } else if n == 3 { '3' }
    else if n == 4 { '4' } else if n == 5 { '5' } else if n == 6 { '6' } else if n == 7 { '7' }
    else if n == 8 { '8' } else if n == 9 { '9' } else if n == 10 { 'a' } else if n == 11 { 'b' }
    else if n == 12 { 'c' } else if n == 13 { 'd' } else if n == 14 { 'e' } else { 'f' }
}

/// How one character of a string body is written: the named JSON escapes,
/// `\u00XX` for the remaining control characters, and the character itself
/// otherwise.
pub open spec fn esc_char(c: char) -> Seq<char> {
    if c == '"' { seq!['\\', '"'] }
    else if c == '\\' { seq!['\\', '\\'] }
    else if c == '\n' { seq!['\\', 'n'] }
    else if c == '\r' { seq!['\\', 'r'] }
    else if c == '\t' { seq!['\\', 't'] }
    else if c == '\u{8}' { seq!['\\', 'b'] }
    else if c == '\u{c}' { seq!['\\', 'f'] }
    else if (c as u32) < 32 {
        seq!['\\', 'u', '0', '0', hex_digit(c as u32 as int / 16), hex_digit(c as u32 as int % 16)]
    } else {
        seq![c]
    }
}

pub open spec fn esc_seq(s: Seq<char>) -> Seq<char>
    decreases s.len(),
{
    if s.len() == 0 {
        Seq::empty()
    } else {
        esc_char(s[0]) + esc_seq(s.drop_first())
    }
}

/// A string token: quote, escaped body, quote.
pub open spec fn jser_str(s: Seq<char>) -> Seq<char> {
    seq!['"'] + esc_seq(s) + seq!['"']
}

/// Compact serialization of a JSON value.
pub open spec fn jser(v: Jv) -> Seq<char>
    decreases v, 1int,
{
    match v {
        Jv::Null => seq!['n', 'u', 'l', 'l'],
        Jv::Bool(b) => if b { seq!['t', 'r', 'u', 'e'] } else { seq!['f', 'a', 'l', 's', 'e'] },
        Jv::Num(t) => t,
        Jv::Str(s) => jser_str(s),
        Jv::Arr(es) => seq!['['] + jser_items(es) + seq![']'],
        Jv::Obj(kvs) => seq!['{'] + jser_entries(kvs) + seq!['}'],
    }
}

/// Comma-separated array items.
pub open spec fn jser_items(es: Seq<Jv>) -> Seq<char>
    decreases es, 0int,
{
    if es.len() == 0 {
        Seq::empty()
    } else if es.len() == 1 {
        jser(es[0])
    } else {
        jser(es[0]) + seq![','] + jser_items(es.drop_first())
    }
}

/// Comma-separated `"key":value` object entries.
pub open spec fn jser_entries(kvs: Seq<(Seq<char>, Jv)>) -> Seq<char>
    decreases kvs, 0int,
{
    if kvs.len() == 0 {
        Seq::empty()
    } else if kvs.len() == 1 {
        jser_str(kvs[0].0) + seq![':'] + jser(kvs[0].1)
    } else {
        jser_str(kvs[0].0) + seq![':'] + jser(kvs[0].1) + seq![','] + jser_entries(kvs.drop_first())
    }
}

proof fn lemma_esc_seq_snoc(s: Seq<char>, c: char)
    ensures
        esc_seq(s.push(c)) == esc_seq(s) + esc_char(c),
    decreases s.len(),
{
    if s.len() == 0 {
        assert(s.push(c)[0] == c);
        assert(s.push(c).drop_first() =~= s);
        assert(esc_char(c) + esc_seq(s) =~= esc_seq(s) + esc_char(c));
    } else {
        assert(s.push(c)[0] == s[0]);
        assert(s.push(c).drop_first() =~= s.drop_first().push(c));
        lemma_esc_seq_snoc(s.drop_first(), c);
        assert(esc_char(s[0]) + (esc_seq(s.drop_first()) + esc_char(c)) =~= (esc_char(s[0])
            + esc_seq(s.drop_first())) + esc_char(c));
    }
}

proof fn lemma_jser_items_snoc(es: Seq<Jv>, e: Jv)
    ensures
        es.len() == 0 ==> jser_items(es.push(e)) == jser(e),
        es.len() > 0 ==> jser_items(es.push(e)) == jser_items(es) + seq![','] + jser(e),
    decreases es.len(),
{
    if es.len() == 0 {
        assert(es.push(e)[0] == e);
    } else {
        assert(es.push(e)[0] == es[0]);
        assert(es.push(e).drop_first() =~= es.drop_first().push(e));
        lemma_jser_items_snoc(es.drop_first(), e);
        if es.len() == 1 {
            assert(jser_items(es.push(e)) == jser(es[0]) + seq![','] + jser_items(
                es.drop_first().push(e),
            ));
            assert(jser_items(es) == jser(es[0]));
        } else {
            assert(jser(es[0]) + seq![','] + (jser_items(es.drop_first()) + seq![','] + jser(e))
                =~= (jser(es[0]) + seq![','] + jser_items(es.drop_first())) + seq![','] + jser(e));
        }
    }
}

proof fn lemma_jser_entries_snoc(kvs: Seq<(Seq<char>, Jv)>, k: Seq<char>, v: Jv)
    ensures
        kvs.len() == 0 ==> jser_entries(kvs.push((k, v))) == jser_str(k) + seq![':'] + jser(v),
        kvs.len() > 0 ==> jser_entries(kvs.push((k, v))) == jser_entries(kvs) + seq![',']
            + jser_str(k) + seq![':'] + jser(v),
    decreases kvs.len(),
{
    if kvs.len() == 0 {
        assert(kvs.push((k, v))[0] == (k, v));
    } else {
        assert(kvs.push((k, v))[0] == kvs[0]);
        assert(kvs.push((k, v)).drop_first() =~= kvs.drop_first().push((k, v)));
        lemma_jser_entries_snoc(kvs.drop_first(), k, v);
        if kvs.len() == 1 {
            assert(jser_entries(kvs) == jser_str(kvs[0].0) + seq![':'] + jser(kvs[0].1));
            assert(jser_str(kvs[0].0) + seq![':'] + jser(kvs[0].1) + seq![','] + (jser_str(k)
                + seq![':'] + jser(v)) =~= jser_entries(kvs) + seq![','] + jser_str(k) + seq![':']
                + jser(v));
        } else {
            assert(jser_str(kvs[0].0) + seq![':'] + jser(kvs[0].1) + seq![','] + (jser_entries(
                kvs.drop_first(),
            ) + seq![','] + jser_str(k) + seq![':'] + jser(v)) =~= (jser_str(kvs[0].0) + seq![':']
                + jser(kvs[0].1) + seq![','] + jser_entries(kvs.drop_first())) + seq![',']
                + jser_str(k) + seq![':'] + jser(v));
        }
    }
}

/// Appends the characters of `s` to `out`.
fn push_str_chars(out: &mut Vec<char>, s: &str)
    ensures
        final(out)@ == old(out)@ + s@,
{
    let n = s.unicode_len();
    let mut i: usize = 0;
    while i < n
        invariant
            i <= n,
            n == s@.len(),
            out@ == old(out)@ + s@.take(i as int),
        decreases n - i,
    {
        let c = s.get_char(i);
        out.push(c);
        proof {
            assert(s@.take(i as int).push(s@[i as int]) =~= s@.take(i as int + 1));
            assert(old(out)@ + s@.take(i as int) + seq![s@[i as int]] =~= old(out)@ + s@.take(
                i as int + 1,
            ));
        }
        i = i + 1;
    }
    proof {
        assert(s@.take(n as int) =~= s@);
    }
}

/// Appends the escaped form of one string-body character.
fn push_esc_char(out: &mut Vec<char>, c: char)
    ensures
        final(out)@ == old(out)@ + esc_char(c),
{
    if c == '"' {
        out.push('\\');
        out.push('"');
    } else if c == '\\' {
        out.push('\\');
        out.push('\\');
    } else if c == '\n' {
        out.push('\\');
        out.push('n');
    } else if c == '\r' {
        out.push('\\');
        out.push('r');
    } else if c == '\t' {
        out.push('\\');
        out.push('t');
    } else if c == '\u{8}' {
        out.push('\\');
        out.push('b');
    } else if c == '\u{c}' {
        out.push('\\');
        out.push('f');
    } else if (c as u32) < 32 {
        let n = c as u32;
        out.push('\\');
        out.push('u');
        out.push('0');
        out.push('0');
        out.push(hex_digit_exec(n / 16));
        out.push(hex_digit_exec(n % 16));
    } else {
        out.push(c);
    }
    proof {
        assert(out@ =~= old(out)@ + esc_char(c));
    }
}

/// The hexadecimal digit for `n` in 0..16.
fn hex_digit_exec(n: u32) -> (c: char)
    requires
        n < 16,
    ensures
        c == hex_digit(n as int),
{
    if n == 0 { '0' } else if n == 1 { '1' } else if n == 2 { '2' } else if n == 3 { '3' }
    else if n == 4 { '4' } else if n == 5 { '5' } else if n == 6 { '6' } else if n == 7 { '7' }
    else if n == 8 { '8' } else if n == 9 { '9' } else if n == 10 { 'a' } else if n == 11 { 'b' }
    else if n == 12 { 'c' } else if n == 13 { 'd' } else if n == 14 { 'e' } else { 'f' }
}

/// Appends the quoted, escaped form of `s`.
fn push_json_string(out: &mut Vec<char>, s: &str)
    ensures
        final(out)@ == old(out)@ + jser_str(s@),
{
    out.push('"');
    let n = s.unicode_len();
    let mut i: usize = 0;
    while i < n
        invariant
            i <= n,
            n == s@.len(),
            out@ == old(out)@ + seq!['"'] + esc_seq(s@.take(i as int)),
        decreases n - i,
    {
        let c = s.get_char(i);
        push_esc_char(out, c);
        proof {
            assert(s@.take(i as int).push(s@[i as int]) =~= s@.take(i as int + 1));
            lemma_esc_seq_snoc(s@.take(i as int), s@[i as int]);
        }
        i = i + 1;
    }
    out.push('"');
    proof {
        assert(s@.take(n as int) =~= s@);
        assert(out@ =~= old(out)@ + jser_str(s@));
    }
}

// ---------------------------------------------------------------------------
// Parsing: a recursive-descent grammar over character sequences.
//
// Each spec function reads one construct from the front of `s` and yields the
// parsed value together with the number of characters consumed, or `None` when
// the text is malformed. Whitespace is skipped one character per recursive
// step. `adv` clamps a step into `[1, s.len()]` so that termination is
// structural; a successful parse always consumes at least one character, so
// the clamp never changes a meaningful result.
// ---------------------------------------------------------------------------

pub open spec fn is_ws(c: char) -> bool {
    c == ' ' || c == '\t' || c == '\n' || c == '\r'
}

/// Adds `k` to the consumed count of a parse result.
pub open spec fn bump<X>(r: Option<(X, int)>, k: int) -> Option<(X, int)> {
    match r {
        Some((x, n)) => Some((x, n + k)),
        None => None,
    }
}

/// The suffix of `s` after `n` characters, with `n` clamped into `[1, s.len()]`.
pub open spec fn adv(s: Seq<char>, n: int) -> Seq<char> {
    let m = if n < 1 { 1int } else if n > s.len() { s.len() as int } else { n };
    s.skip(m)
}

/// Value of a hexadecimal digit, or -1.
pub open spec fn hex_val(c: char) -> int {
    if '0' <= c && c <= '9' { (c as int) - 48 }
    else if 'a' <= c && c <= 'f' { (c as int) - 87 }
    else if 'A' <= c && c <= 'F' { (c as int) - 55 }
    else { -1 }
}

/// The unescaped character for a named escape `\X`, if `X` names one.
pub open spec fn named_escape(c: char) -> Option<char> {
    if c == '"' { Some('"') } else if c == '\\' { Some('\\') } else if c == '/' { Some('/') }
    else if c == 'n' { Some('\n') } else if c == 'r' { Some('\r') } else if c == 't' { Some('\t') }
    else if c == 'b' { Some('\u{8}') } else if c == 'f' { Some('\u{c}') } else { None }
}

/// Whether `c` is the character with code point `n`.
pub open spec fn has_code(c: char, n: int) -> bool {
    c as int == n
}

/// The character with code point `n` (meaningful for valid scalar values).
pub open spec fn char_of(n: int) -> char {
    choose|c: char| has_code(c, n)
}

/// `char_of` inverts taking a character's code point.
pub proof fn lemma_char_of(c: char)
    ensures
        char_of(c as int) == c,
{
    assert(has_code(c, c as int));
    assert(has_code(char_of(c as int), c as int));
}

/// Whether positions 2..6 of `s` hold four hexadecimal digits.
pub open spec fn hex4_at(s: Seq<char>, i: int) -> bool {
    hex_val(s[i]) >= 0 && hex_val(s[i + 1]) >= 0 && hex_val(s[i + 2]) >= 0 && hex_val(s[i + 3])
        >= 0
}

/// The value of the four hexadecimal digits at positions `i..i+4` of `s`.
pub open spec fn hex4_val(s: Seq<char>, i: int) -> int {
    hex_val(s[i]) * 4096 + hex_val(s[i + 1]) * 256 + hex_val(s[i + 2]) * 16 + hex_val(s[i + 3])
}

/// Reads a string body up to and including the closing quote.
///
/// All JSON escapes are understood, `\uXXXX` included: a high surrogate
/// must be followed by a low surrogate escape, and the pair names one code
/// point. Raw control characters are rejected, as JSON requires.
pub open spec fn jp_str(s: Seq<char>) -> Option<(Seq<char>, int)>
    decreases s.len(),
{
    if s.len() == 0 {
        None
    } else if s[0] == '"' {
        Some((Seq::empty(), 1))
    } else if s[0] == '\\' {
        if s.len() < 2 {
            None
        } else if named_escape(s[1]) is Some {
            match jp_str(s.skip(2)) {
                Some((body, n)) => Some((seq![named_escape(s[1])->0] + body, 2 + n)),
                None => None,
            }
        } else if s[1] == 'u' {
            if s.len() >= 6 && hex4_at(s, 2) {
                let v1 = hex4_val(s, 2);
                if v1 < 0xD800 || v1 >= 0xE000 {
                    match jp_str(s.skip(6)) {
                        Some((body, n)) => Some((seq![char_of(v1)] + body, 6 + n)),
                        None => None,
                    }
                } else if v1 < 0xDC00 {
                    if s.len() >= 12 && s[6] == '\\' && s[7] == 'u' && hex4_at(s, 8) {
                        let v2 = hex4_val(s, 8);
                        if 0xDC00 <= v2 && v2 < 0xE000 {
                            match jp_str(s.skip(12)) {
                                Some((body, n)) => Some(
                                    (
                                        seq![
                                            char_of(
                                                0x10000 + (v1 - 0xD800) * 1024 + (v2 - 0xDC00),
                                            )
                                        ] + body,
                                        12 + n,
                                    ),
                                ),
                                None => None,
                            }
                        } else {
                            None
                        }
                    } else {
                        None
                    }
                } else {
                    None
                }
            } else {
                None
            }
        } else {
            None
        }
    } else if (s[0] as u32) < 32 {
        None
    } else {
        match jp_str(s.drop_first()) {
            Some((body, n)) => Some((seq![s[0]] + body, 1 + n)),
            None => None,
        }
    }
}

/// Characters that can occur in a number literal.
pub open spec fn num_char(c: char) -> bool {
    is_digit(c) || c == '-' || c == '+' || c == '.' || c == 'e' || c == 'E'
}

/// Length of the leading run of number characters.
pub open spec fn num_len(s: Seq<char>) -> int
    decreases s.len(),
{
    if s.len() > 0 && num_char(s[0]) {
        1 + num_len(s.drop_first())
    } else {
        0
    }
}

/// Reads a number: the maximal run of number characters, checked against the
/// number grammar.
pub open spec fn jp_num(s: Seq<char>) -> Option<(Jv, int)> {
    let n = num_len(s);
    if is_num_lit(s.take(n)) {
        Some((Jv::Num(s.take(n)), n))
    } else {
        None
    }
}

/// Reads one JSON value, after any leading whitespace.
pub open spec fn jp_val(s: Seq<char>) -> Option<(Jv, int)>
    decreases s.len(), 0int,
{
    if s.len() == 0 {
        None
    } else if is_ws(s[0]) {
        bump(jp_val(s.drop_first()), 1)
    } else if s[0] == 'n' {
        if s.len() >= 4 && s[1] == 'u' && s[2] == 'l' && s[3] == 'l' {
            Some((Jv::Null, 4))
        } else {
            None
        }
    } else if s[0] == 't' {
        if s.len() >= 4 && s[1] == 'r' && s[2] == 'u' && s[3] == 'e' {
            Some((Jv::Bool(true), 4))
        } else {
            None
        }
    } else if s[0] == 'f' {
        if s.len() >= 5 && s[1] == 'a' && s[2] == 'l' && s[3] == 's' && s[4] == 'e' {
            Some((Jv::Bool(false), 5))
        } else {
            None
        }
    } else if s[0] == '"' {
        match jp_str(s.drop_first()) {
            Some((body, n)) => Some((Jv::Str(body), 1 + n)),
            None => None,
        }
    } else if s[0] == '[' {
        match jp_arr_first(s.drop_first()) {
            Some((es, n)) => Some((Jv::Arr(es), 1 + n)),
            None => None,
        }
    } else if s[0] == '{' {
        match jp_obj_first(s.drop_first()) {
            Some((kvs, n)) => Some((Jv::Obj(kvs), 1 + n)),
            None => None,
        }
    } else if s[0] == '-' || is_digit(s[0]) {
        jp_num(s)
    } else {
        None
    }
}

/// After `[`: either `]` or the first item.
pub open spec fn jp_arr_first(s: Seq<char>) -> Option<(Seq<Jv>, int)>
    decreases s.len(), 2int,
{
    if s.len() == 0 {
        None
    } else if is_ws(s[0]) {
        bump(jp_arr_first(s.drop_first()), 1)
    } else if s[0] == ']' {
        Some((Seq::empty(), 1))
    } else {
        jp_arr_next(s)
    }
}

/// One item followed by the remaining items.
pub open spec fn jp_arr_next(s: Seq<char>) -> Option<(Seq<Jv>, int)>
    decreases s.len(), 1int,
{
    if s.len() == 0 {
        None
    } else {
        match jp_val(s) {
            Some((v, n)) => match jp_arr_rest(adv(s, n)) {
                Some((es, m)) => Some((seq![v] + es, n + m)),
                None => None,
            },
            None => None,
        }
    }
}

/// After an item: either `]` or `,` and further items.
pub open spec fn jp_arr_rest(s: Seq<char>) -> Option<(Seq<Jv>, int)>
    decreases s.len(), 1int,
{
    if s.len() == 0 {
        None
    } else if is_ws(s[0]) {
        bump(jp_arr_rest(s.drop_first()), 1)
    } else if s[0] == ']' {
        Some((Seq::empty(), 1))
    } else if s[0] == ',' {
        bump(jp_arr_next(s.drop_first()), 1)
    } else {
        None
    }
}

/// After `{`: either `}` or the first entry.
pub open spec fn jp_obj_first(s: Seq<char>) -> Option<(Seq<(Seq<char>, Jv)>, int)>
    decreases s.len(), 3int,
{
    if s.len() == 0 {
        None
    } else if is_ws(s[0]) {
        bump(jp_obj_first(s.drop_first()), 1)
    } else if s[0] == '}' {
        Some((Seq::empty(), 1))
    } else {
        jp_obj_next(s)
    }
}

/// One `"key": value` entry: the key string, the colon, and the value.
pub open spec fn jp_entry(s: Seq<char>) -> Option<((Seq<char>, Jv), int)>
    decreases s.len(), 1int,
{
    if s.len() == 0 {
        None
    } else if is_ws(s[0]) {
        bump(jp_entry(s.drop_first()), 1)
    } else if s[0] == '"' {
        match jp_str(s.drop_first()) {
            Some((k, kn)) => match jp_entry_val(adv(s, 1 + kn)) {
                Some((v, vn)) => Some(((k, v), 1 + kn + vn)),
                None => None,
            },
            None => None,
        }
    } else {
        None
    }
}

/// One entry followed by the remaining entries.
pub open spec fn jp_obj_next(s: Seq<char>) -> Option<(Seq<(Seq<char>, Jv)>, int)>
    decreases s.len(), 2int,
{
    if s.len() == 0 {
        None
    } else {
        match jp_entry(s) {
            Some(((k, v), n)) => match jp_obj_rest(adv(s, n)) {
                Some((es, rn)) => Some((seq![(k, v)] + es, n + rn)),
                None => None,
            },
            None => None,
        }
    }
}

/// After a key: `:` and the entry's value.
pub open spec fn jp_entry_val(s: Seq<char>) -> Option<(Jv, int)>
    decreases s.len(), 1int,
{
    if s.len() == 0 {
        None
    } else if is_ws(s[0]) {
        bump(jp_entry_val(s.drop_first()), 1)
    } else if s[0] == ':' {
        bump(jp_val(s.drop_first()), 1)
    } else {
        None
    }
}

/// After an entry: either `}` or `,` and further entries.
pub open spec fn jp_obj_rest(s: Seq<char>) -> Option<(Seq<(Seq<char>, Jv)>, int)>
    decreases s.len(), 1int,
{
    if s.len() == 0 {
        None
    } else if is_ws(s[0]) {
        bump(jp_obj_rest(s.drop_first()), 1)
    } else if s[0] == '}' {
        Some((Seq::empty(), 1))
    } else if s[0] == ',' {
        bump(jp_obj_next(s.drop_first()), 1)
    } else {
        None
    }
}

proof fn lemma_wf_seq_cons(v: Jv, es: Seq<Jv>)
    requires
        jv_wf(v),
        jv_wf_seq(es),
    ensures
        jv_wf_seq(seq![v] + es),
{
    let w = seq![v] + es;
    assert(w[0] == v);
    assert(w.drop_first() =~= es);
}

proof fn lemma_wf_entries_cons(kv: (Seq<char>, Jv), kvs: Seq<(Seq<char>, Jv)>)
    requires
        jv_wf(kv.1),
        jv_wf_entries(kvs),
    ensures
        jv_wf_entries(seq![kv] + kvs),
{
    let w = seq![kv] + kvs;
    assert(w[0] == kv);
    assert(w.drop_first() =~= kvs);
}

proof fn lemma_ws_val(u: Seq<char>)
    requires
        u.len() > 0,
        is_ws(u[0]),
    ensures
        jp_val(u) == bump(jp_val(u.drop_first()), 1),
{
}

proof fn lemma_ws_arr_first(u: Seq<char>)
    requires
        u.len() > 0,
        is_ws(u[0]),
    ensures
        jp_arr_first(u) == bump(jp_arr_first(u.drop_first()), 1),
{
}

proof fn lemma_ws_arr_rest(u: Seq<char>)
    requires
        u.len() > 0,
        is_ws(u[0]),
    ensures
        jp_arr_rest(u) == bump(jp_arr_rest(u.drop_first()), 1),
{
}

proof fn lemma_ws_obj_first(u: Seq<char>)
    requires
        u.len() > 0,
        is_ws(u[0]),
    ensures
        jp_obj_first(u) == bump(jp_obj_first(u.drop_first()), 1),
{
}

proof fn lemma_ws_entry(u: Seq<char>)
    requires
        u.len() > 0,
        is_ws(u[0]),
    ensures
        jp_entry(u) == bump(jp_entry(u.drop_first()), 1),
{
}

proof fn lemma_ws_entry_val(u: Seq<char>)
    requires
        u.len() > 0,
        is_ws(u[0]),
    ensures
        jp_entry_val(u) == bump(jp_entry_val(u.drop_first()), 1),
{
}

proof fn lemma_ws_obj_rest(u: Seq<char>)
    requires
        u.len() > 0,
        is_ws(u[0]),
    ensures
        jp_obj_rest(u) == bump(jp_obj_rest(u.drop_first()), 1),
{
}

proof fn lemma_bump_zero<X>(r: Option<(X, int)>)
    ensures
        bump(r, 0) == r,
{
    match r {
        Some((x, n)) => {
            assert(bump(r, 0) == Some((x, n + 0)));
        },
        None => {},
    }
}

proof fn lemma_bump_add<X>(r: Option<(X, int)>, a: int, b: int)
    ensures
        bump(bump(r, a), b) == bump(r, a + b),
{
    match r {
        Some((x, n)) => {
            assert(bump(bump(r, a), b) == Some((x, n + a + b)));
        },
        None => {},
    }
}

proof fn lemma_ws_val_skip(s: Seq<char>, k: int)
    requires
        0 <= k <= s.len(),
        forall|j: int| 0 <= j < k ==> is_ws(#[trigger] s[j]),
    ensures
        jp_val(s) == bump(jp_val(s.skip(k)), k),
    decreases k,
{
    if k == 0 {
        assert(s.skip(0) =~= s);
        lemma_bump_zero(jp_val(s));
    } else {
        lemma_ws_val(s);
        assert forall|j: int| 0 <= j < k - 1 implies is_ws(#[trigger] s.drop_first()[j]) by {
            assert(s.drop_first()[j] == s[j + 1]);
        }
        lemma_ws_val_skip(s.drop_first(), k - 1);
        assert(s.drop_first().skip(k - 1) =~= s.skip(k));
        lemma_bump_add(jp_val(s.skip(k)), k - 1, 1);
    }
}

proof fn lemma_ws_arr_first_skip(s: Seq<char>, k: int)
    requires
        0 <= k <= s.len(),
        forall|j: int| 0 <= j < k ==> is_ws(#[trigger] s[j]),
    ensures
        jp_arr_first(s) == bump(jp_arr_first(s.skip(k)), k),
    decreases k,
{
    if k == 0 {
        assert(s.skip(0) =~= s);
        lemma_bump_zero(jp_arr_first(s));
    } else {
        lemma_ws_arr_first(s);
        assert forall|j: int| 0 <= j < k - 1 implies is_ws(#[trigger] s.drop_first()[j]) by {
            assert(s.drop_first()[j] == s[j + 1]);
        }
        lemma_ws_arr_first_skip(s.drop_first(), k - 1);
        assert(s.drop_first().skip(k - 1) =~= s.skip(k));
        lemma_bump_add(jp_arr_first(s.skip(k)), k - 1, 1);
    }
}

proof fn lemma_ws_arr_rest_skip(s: Seq<char>, k: int)
    requires
        0 <= k <= s.len(),
        forall|j: int| 0 <= j < k ==> is_ws(#[trigger] s[j]),
    ensures
        jp_arr_rest(s) == bump(jp_arr_rest(s.skip(k)), k),
    decreases k,
{
    if k == 0 {
        assert(s.skip(0) =~= s);
        lemma_bump_zero(jp_arr_rest(s));
    } else {
        lemma_ws_arr_rest(s);
        assert forall|j: int| 0 <= j < k - 1 implies is_ws(#[trigger] s.drop_first()[j]) by {
            assert(s.drop_first()[j] == s[j + 1]);
        }
        lemma_ws_arr_rest_skip(s.drop_first(), k - 1);
        assert(s.drop_first().skip(k - 1) =~= s.skip(k));
        lemma_bump_add(jp_arr_rest(s.skip(k)), k - 1, 1);
    }
}

proof fn lemma_ws_obj_first_skip(s: Seq<char>, k: int)
    requires
        0 <= k <= s.len(),
        forall|j: int| 0 <= j < k ==> is_ws(#[trigger] s[j]),
    ensures
        jp_obj_first(s) == bump(jp_obj_first(s.skip(k)), k),
    decreases k,
{
    if k == 0 {
        assert(s.skip(0) =~= s);
        lemma_bump_zero(jp_obj_first(s));
    } else {
        lemma_ws_obj_first(s);
        assert forall|j: int| 0 <= j < k - 1 implies is_ws(#[trigger] s.drop_first()[j]) by {
            assert(s.drop_first()[j] == s[j + 1]);
        }
        lemma_ws_obj_first_skip(s.drop_first(), k - 1);
        assert(s.drop_first().skip(k - 1) =~= s.skip(k));
        lemma_bump_add(jp_obj_first(s.skip(k)), k - 1, 1);
    }
}

proof fn lemma_ws_entry_skip(s: Seq<char>, k: int)
    requires
        0 <= k <= s.len(),
        forall|j: int| 0 <= j < k ==> is_ws(#[trigger] s[j]),
    ensures
        jp_entry(s) == bump(jp_entry(s.skip(k)), k),
    decreases k,
{
    if k == 0 {
        assert(s.skip(0) =~= s);
        lemma_bump_zero(jp_entry(s));
    } else {
        lemma_ws_entry(s);
        assert forall|j: int| 0 <= j < k - 1 implies is_ws(#[trigger] s.drop_first()[j]) by {
            assert(s.drop_first()[j] == s[j + 1]);
        }
        lemma_ws_entry_skip(s.drop_first(), k - 1);
        assert(s.drop_first().skip(k - 1) =~= s.skip(k));
        lemma_bump_add(jp_entry(s.skip(k)), k - 1, 1);
    }
}

proof fn lemma_ws_entry_val_skip(s: Seq<char>, k: int)
    requires
        0 <= k <= s.len(),
        forall|j: int| 0 <= j < k ==> is_ws(#[trigger] s[j]),
    ensures
        jp_entry_val(s) == bump(jp_entry_val(s.skip(k)), k),
    decreases k,
{
    if k == 0 {
        assert(s.skip(0) =~= s);
        lemma_bump_zero(jp_entry_val(s));
    } else {
        lemma_ws_entry_val(s);
        assert forall|j: int| 0 <= j < k - 1 implies is_ws(#[trigger] s.drop_first()[j]) by {
            assert(s.drop_first()[j] == s[j + 1]);
        }
        lemma_ws_entry_val_skip(s.drop_first(), k - 1);
        assert(s.drop_first().skip(k - 1) =~= s.skip(k));
        lemma_bump_add(jp_entry_val(s.skip(k)), k - 1, 1);
    }
}

proof fn lemma_ws_obj_rest_skip(s: Seq<char>, k: int)
    requires
        0 <= k <= s.len(),
        forall|j: int| 0 <= j < k ==> is_ws(#[trigger] s[j]),
    ensures
        jp_obj_rest(s) == bump(jp_obj_rest(s.skip(k)), k),
    decreases k,
{
    if k == 0 {
        assert(s.skip(0) =~= s);
        lemma_bump_zero(jp_obj_rest(s));
    } else {
        lemma_ws_obj_rest(s);
        assert forall|j: int| 0 <= j < k - 1 implies is_ws(#[trigger] s.drop_first()[j]) by {
            assert(s.drop_first()[j] == s[j + 1]);
        }
        lemma_ws_obj_rest_skip(s.drop_first(), k - 1);
        assert(s.drop_first().skip(k - 1) =~= s.skip(k));
        lemma_bump_add(jp_obj_rest(s.skip(k)), k - 1, 1);
    }
}

/// Position of the first non-whitespace character at or after `i`.
fn skip_ws(cs: &Vec<char>, i: usize) -> (j: usize)
    requires
        i <= cs.len(),
    ensures
        i <= j <= cs.len(),
        forall|k: int| i <= k < j ==> is_ws(#[trigger] cs@[k]),
        j < cs.len() ==> !is_ws(cs@[j as int]),
{
    let mut j: usize = i;
    while j < cs.len() && (cs[j] == ' ' || cs[j] == '\t' || cs[j] == '\n' || cs[j] == '\r')
        invariant
            i <= j <= cs.len(),
            forall|k: int| i <= k < j ==> is_ws(#[trigger] cs@[k]),
        decreases cs.len() - j,
    {
        j = j + 1;
    }
    j
}

/// A parse error, with the position where reading stopped.
#[derive(Debug)]
pub struct JsonError {
    pub pos: usize,
}

/// Copies the characters of `s` into a vector.
pub fn str_to_chars(s: &str) -> (r: Vec<char>)
    ensures
        r@ == s@,
{
    let n = s.unicode_len();
    let mut r: Vec<char> = Vec::new();
    let mut i: usize = 0;
    while i < n
        invariant
            i <= n,
            n == s@.len(),
            r@ == s@.take(i as int),
        decreases n - i,
    {
        r.push(s.get_char(i));
        proof {
            assert(s@.take(i as int).push(s@[i as int]) =~= s@.take(i as int + 1));
        }
        i = i + 1;
    }
    proof {
        assert(s@.take(n as int) =~= s@);
    }
    r
}

/// Relies on `char::from_u32`: it returns the character with the given
/// code point, and `None` exactly for surrogate values and values above
/// the Unicode maximum, as its documentation states.
pub assume_specification[ char::from_u32 ](n: u32) -> (r: Option<char>)
    ensures
        r is Some <==> (n < 0xD800 || (0xE000 <= n && n <= 0x10FFFF)),
        r matches Some(c) ==> c as u32 == n,
;

/// Relies on `core::iter::Iterator::collect`: collecting characters yields
/// the string of exactly those characters, in order.
#[verifier::external_body]
pub fn chars_into_string(cs: &Vec<char>) -> (r: String)
    ensures
        r@ == cs@,
{
    cs.iter().collect()
}

/// Value of a hexadecimal digit, or -1.
fn hex_val_exec(c: char) -> (r: i32)
    ensures
        r as int == hex_val(c),
{
    if '0' <= c && c <= '9' { (c as u32 as i32) - 48 }
    else if 'a' <= c && c <= 'f' { (c as u32 as i32) - 87 }
    else if 'A' <= c && c <= 'F' { (c as u32 as i32) - 55 }
    else { -1 }
}


/// The unescaped character for a named escape `\X`, if `X` names one.
fn named_escape_exec(c: char) -> (r: Option<char>)
    ensures
        r == named_escape(c),
{
    if c == '"' { Some('"') } else if c == '\\' { Some('\\') } else if c == '/' { Some('/') }
    else if c == 'n' { Some('\n') } else if c == 'r' { Some('\r') } else if c == 't' { Some('\t') }
    else if c == 'b' { Some('\u{8}') } else if c == 'f' { Some('\u{c}') } else { None }
}

/// Prefixes a string-body parse result with already-read characters.
pub open spec fn prepend_str(pre: Seq<char>, k: int, r: Option<(Seq<char>, int)>) -> Option<
    (Seq<char>, int),
> {
    match r {
        Some((body, n)) => Some((pre + body, k + n)),
        None => None,
    }
}

proof fn lemma_prepend_str_compose(
    pre: Seq<char>,
    k: int,
    mid: Seq<char>,
    m: int,
    r: Option<(Seq<char>, int)>,
)
    ensures
        prepend_str(pre, k, prepend_str(mid, m, r)) == prepend_str(pre + mid, k + m, r),
    decreases 0int,
{
    match r {
        Some((body, n)) => {
            assert((pre + mid) + body =~= pre + (mid + body));
        },
        None => {},
    }
}

proof fn lemma_prepend_str_zero(r: Option<(Seq<char>, int)>)
    ensures
        prepend_str(Seq::empty(), 0, r) == r,
{
    match r {
        Some((body, n)) => {
            assert(Seq::<char>::empty() + body =~= body);
        },
        None => {},
    }
}

/// Reads a string body starting at `i` (just past the opening quote).
#[verifier::rlimit(100)]
fn p_str(cs: &Vec<char>, i: usize) -> (r: (Result<Vec<char>, JsonError>, usize))
    requires
        i <= cs.len(),
    ensures
        i <= r.1 <= cs.len(),
        match r.0 {
            Ok(buf) => jp_str(cs@.skip(i as int)) == Some((buf@, r.1 - i as int)) && r.1 > i,
            Err(_) => jp_str(cs@.skip(i as int)) is None,
        },
{
    let mut buf: Vec<char> = Vec::new();
    let mut p: usize = i;
    proof {
        lemma_prepend_str_zero(jp_str(cs@.skip(i as int)));
    }
    loop
        invariant
            i <= p <= cs.len(),
            jp_str(cs@.skip(i as int)) == prepend_str(buf@, p - i, jp_str(cs@.skip(p as int))),
        decreases cs.len() - p,
    {
        let ghost t = cs@.skip(p as int);
        proof {
            assert(forall|k: int| 0 <= k < t.len() ==> t[k] == cs@[p + k]);
        }
        if p == cs.len() {
            return (Err(JsonError { pos: p }), p);
        }
        let c = cs[p];
        if c == '"' {
            proof {
                assert(jp_str(t) == Some((Seq::<char>::empty(), 1int)));
                assert(buf@ + Seq::<char>::empty() =~= buf@);
            }
            return (Ok(buf), p + 1);
        } else if c == '\\' {
            if cs.len() - p < 2 {
                return (Err(JsonError { pos: p }), p);
            }
            let e = cs[p + 1];
            proof {
                assert(t[1] == cs@[p + 1]);
            }
            if let Some(u) = named_escape_exec(e) {
                let ghost buf0 = buf@;
                buf.push(u);
                proof {
                    assert(t.skip(2) =~= cs@.skip(p + 2));
                    let child = jp_str(cs@.skip(p + 2));
                    match child {
                        Some((body, n)) => {
                            assert(jp_str(t) == Some((seq![u] + body, 2 + n)));
                        },
                        None => {
                            assert(jp_str(t) is None);
                        },
                    }
                    assert(jp_str(t) == prepend_str(seq![u], 2, child));
                    lemma_prepend_str_compose(buf0, p - i, seq![u], 2, child);
                    assert(buf0 + seq![u] =~= buf@);
                }
                p = p + 2;
            } else if e == 'u' {
                if cs.len() - p < 6 {
                    return (Err(JsonError { pos: p }), p);
                }
                let h2 = hex_val_exec(cs[p + 2]);
                let h3 = hex_val_exec(cs[p + 3]);
                let h4 = hex_val_exec(cs[p + 4]);
                let h5 = hex_val_exec(cs[p + 5]);
                proof {
                    assert(t[2] == cs@[p + 2] && t[3] == cs@[p + 3] && t[4] == cs@[p + 4] && t[5]
                        == cs@[p + 5]);
                }
                if h2 < 0 || h3 < 0 || h4 < 0 || h5 < 0 {
                    return (Err(JsonError { pos: p }), p);
                }
                let v1: u32 = (h2 as u32) * 4096 + (h3 as u32) * 256 + (h4 as u32) * 16 + (
                h5 as u32);
                proof {
                    assert(v1 as int == hex4_val(t, 2));
                }
                if v1 < 0xD800 || v1 >= 0xE000 {
                    let u = match char::from_u32(v1) {
                        Some(u) => u,
                        None => {
                            proof {
                                assert(false);
                            }
                            return (Err(JsonError { pos: p }), p);
                        },
                    };
                    let ghost buf0 = buf@;
                    buf.push(u);
                    proof {
                        lemma_char_of(u);
                        assert(char_of(v1 as int) == u);
                        assert(t.skip(6) =~= cs@.skip(p + 6));
                        let child = jp_str(cs@.skip(p + 6));
                        match child {
                            Some((body, n)) => {
                                assert(jp_str(t) == Some((seq![u] + body, 6 + n)));
                            },
                            None => {
                                assert(jp_str(t) is None);
                            },
                        }
                        assert(jp_str(t) == prepend_str(seq![u], 6, child));
                        lemma_prepend_str_compose(buf0, p - i, seq![u], 6, child);
                        assert(buf0 + seq![u] =~= buf@);
                    }
                    p = p + 6;
                } else if v1 < 0xDC00 {
                    if cs.len() - p < 12 {
                        return (Err(JsonError { pos: p }), p);
                    }
                    proof {
                        assert(t[6] == cs@[p + 6] && t[7] == cs@[p + 7] && t[8] == cs@[p + 8]
                            && t[9] == cs@[p + 9] && t[10] == cs@[p + 10] && t[11] == cs@[p + 11]);
                    }
                    if !(cs[p + 6] == '\\' && cs[p + 7] == 'u') {
                        return (Err(JsonError { pos: p }), p);
                    }
                    let h8 = hex_val_exec(cs[p + 8]);
                    let h9 = hex_val_exec(cs[p + 9]);
                    let h10 = hex_val_exec(cs[p + 10]);
                    let h11 = hex_val_exec(cs[p + 11]);
                    if h8 < 0 || h9 < 0 || h10 < 0 || h11 < 0 {
                        return (Err(JsonError { pos: p }), p);
                    }
                    let v2: u32 = (h8 as u32) * 4096 + (h9 as u32) * 256 + (h10 as u32) * 16 + (
                    h11 as u32);
                    proof {
                        assert(v2 as int == hex4_val(t, 8));
                    }
                    if !(0xDC00 <= v2 && v2 < 0xE000) {
                        return (Err(JsonError { pos: p }), p);
                    }
                    let cp: u32 = 0x10000 + (v1 - 0xD800) * 1024 + (v2 - 0xDC00);
                    let u = match char::from_u32(cp) {
                        Some(u) => u,
                        None => {
                            proof {
                                assert(false);
                            }
                            return (Err(JsonError { pos: p }), p);
                        },
                    };
                    let ghost buf0 = buf@;
                    buf.push(u);
                    proof {
                        lemma_char_of(u);
                        assert(char_of(cp as int) == u);
                        assert(t.skip(12) =~= cs@.skip(p + 12));
                        let child = jp_str(cs@.skip(p + 12));
                        match child {
                            Some((body, n)) => {
                                assert(jp_str(t) == Some((seq![u] + body, 12 + n)));
                            },
                            None => {
                                assert(jp_str(t) is None);
                            },
                        }
                        assert(jp_str(t) == prepend_str(seq![u], 12, child));
                        lemma_prepend_str_compose(buf0, p - i, seq![u], 12, child);
                        assert(buf0 + seq![u] =~= buf@);
                    }
                    p = p + 12;
                } else {
                    return (Err(JsonError { pos: p }), p);
                }
            } else {
                return (Err(JsonError { pos: p }), p);
            }
        } else if (c as u32) < 32 {
            return (Err(JsonError { pos: p }), p);
        } else {
            let ghost buf0 = buf@;
            buf.push(c);
            proof {
                assert(t.drop_first() =~= cs@.skip(p + 1));
                let child = jp_str(cs@.skip(p + 1));
                match child {
                    Some((body, n)) => {
                        assert(jp_str(t) == Some((seq![c] + body, 1 + n)));
                    },
                    None => {
                        assert(jp_str(t) is None);
                    },
                }
                assert(jp_str(t) == prepend_str(seq![c], 1, child));
                lemma_prepend_str_compose(buf0, p - i, seq![c], 1, child);
                assert(buf0 + seq![c] =~= buf@);
            }
            p = p + 1;
        }
    }
}

fn num_char_exec(c: char) -> (r: bool)
    ensures
        r == num_char(c),
{
    ('0' <= c && c <= '9') || c == '-' || c == '+' || c == '.' || c == 'e' || c == 'E'
}

/// Reads a number starting at `i`.
fn p_num(cs: &Vec<char>, i: usize) -> (r: (Result<Json, JsonError>, usize))
    requires
        i <= cs.len(),
    ensures
        i <= r.1 <= cs.len(),
        match r.0 {
            Ok(v) => jp_num(cs@.skip(i as int)) == Some((v.deep_view(), r.1 - i as int))
                && jv_wf(v.deep_view()),
            Err(_) => jp_num(cs@.skip(i as int)) is None,
        },
{
    let ghost s = cs@.skip(i as int);
    let mut p: usize = i;
    while p < cs.len() && num_char_exec(cs[p])
        invariant
            i <= p <= cs.len(),
            s == cs@.skip(i as int),
            num_len(s) == (p - i) + num_len(cs@.skip(p as int)),
        decreases cs.len() - p,
    {
        proof {
            assert(cs@.skip(p as int)[0] == cs@[p as int]);
            assert(cs@.skip(p as int).drop_first() =~= cs@.skip(p + 1));
        }
        p = p + 1;
    }
    proof {
        if p < cs.len() {
            assert(cs@.skip(p as int)[0] == cs@[p as int]);
        }
        assert(num_len(cs@.skip(p as int)) == 0);
        assert(num_len(s) == p - i);
    }
    let mut buf: Vec<char> = Vec::new();
    let mut k: usize = i;
    while k < p
        invariant
            i <= k <= p <= cs.len(),
            buf@ == cs@.subrange(i as int, k as int),
        decreases p - k,
    {
        buf.push(cs[k]);
        proof {
            assert(cs@.subrange(i as int, k as int).push(cs@[k as int]) =~= cs@.subrange(
                i as int,
                k as int + 1,
            ));
        }
        k = k + 1;
    }
    proof {
        assert(buf@ =~= s.take(num_len(s)));
    }
    if check_num_chars(&buf) {
        let text = chars_into_string(&buf);
        (Ok(Json::Num(JsonNum { text })), p)
    } else {
        (Err(JsonError { pos: i }), p)
    }
}

/// Reads one JSON value starting at `i`.
#[verifier::rlimit(100)]
fn p_val(cs: &Vec<char>, i: usize) -> (r: (Result<Json, JsonError>, usize))
    requires
        i <= cs.len(),
    ensures
        i <= r.1 <= cs.len(),
        match r.0 {
            Ok(v) => jp_val(cs@.skip(i as int)) == Some((v.deep_view(), r.1 - i as int)) && jv_wf(
                v.deep_view(),
            ) && r.1 > i,
            Err(_) => jp_val(cs@.skip(i as int)) is None,
        },
    decreases cs.len() - i, 0int,
{
    let j = skip_ws(cs, i);
    let ghost s = cs@.skip(i as int);
    let ghost t = cs@.skip(j as int);
    proof {
        assert forall|m: int| 0 <= m < j - i implies is_ws(#[trigger] s[m]) by {
            assert(s[m] == cs@[i + m]);
        }
        lemma_ws_val_skip(s, j - i);
        assert(s.skip(j - i) =~= t);
        assert(jp_val(s) == bump(jp_val(t), j - i));
        assert(forall|k: int| 0 <= k < t.len() ==> t[k] == cs@[j + k]);
    }
    if j == cs.len() {
        return (Err(JsonError { pos: j }), j);
    }
    let c = cs[j];
    let rem = cs.len() - j;
    if c == 'n' {
        if rem >= 4 && cs[j + 1] == 'u' && cs[j + 2] == 'l' && cs[j + 3] == 'l' {
            proof {
                assert(jp_val(t) == Some((Jv::Null, 4int)));
            }
            (Ok(Json::Null), j + 4)
        } else {
            (Err(JsonError { pos: j }), j)
        }
    } else if c == 't' {
        if rem >= 4 && cs[j + 1] == 'r' && cs[j + 2] == 'u' && cs[j + 3] == 'e' {
            proof {
                assert(jp_val(t) == Some((Jv::Bool(true), 4int)));
            }
            (Ok(Json::Bool(true)), j + 4)
        } else {
            (Err(JsonError { pos: j }), j)
        }
    } else if c == 'f' {
        if rem >= 5 && cs[j + 1] == 'a' && cs[j + 2] == 'l' && cs[j + 3] == 's' && cs[j + 4]
            == 'e' {
            proof {
                assert(jp_val(t) == Some((Jv::Bool(false), 5int)));
            }
            (Ok(Json::Bool(false)), j + 5)
        } else {
            (Err(JsonError { pos: j }), j)
        }
    } else if c == '"' {
        proof {
            assert(t.drop_first() =~= cs@.skip(j + 1));
        }
        let (rs, j2) = p_str(cs, j + 1);
        match rs {
            Ok(body) => {
                let sv = chars_into_string(&body);
                (Ok(Json::Str(sv)), j2)
            },
            Err(e) => (Err(e), j),
        }
    } else if c == '[' {
        proof {
            assert(t.drop_first() =~= cs@.skip(j + 1));
        }
        let (ra, j2) = p_arr_first(cs, j + 1);
        match ra {
            Ok(items) => (Ok(Json::Arr(items)), j2),
            Err(e) => (Err(e), j),
        }
    } else if c == '{' {
        proof {
            assert(t.drop_first() =~= cs@.skip(j + 1));
        }
        let (ro, j2) = p_obj_first(cs, j + 1);
        match ro {
            Ok(entries) => (Ok(Json::Obj(entries)), j2),
            Err(e) => (Err(e), j),
        }
    } else if c == '-' || ('0' <= c && c <= '9') {
        let (rn, j2) = p_num(cs, j);
        proof {
            assert(jp_val(t) == jp_num(t));
        }
        match rn {
            Ok(v) => {
                proof {
                    assert(num_len(t) >= 1) by {
                        assert(t[0] == c && num_char(c));
                    }
                }
                (Ok(v), j2)
            },
            Err(e) => (Err(e), j),
        }
    } else {
        (Err(JsonError { pos: j }), j)
    }
}

/// Reads the items of an array, starting just past `[`.
fn p_arr_first(cs: &Vec<char>, i: usize) -> (r: (Result<Vec<Json>, JsonError>, usize))
    requires
        i <= cs.len(),
    ensures
        i <= r.1 <= cs.len(),
        match r.0 {
            Ok(items) => jp_arr_first(cs@.skip(i as int)) == Some(
                (arr_view(items@), r.1 - i as int),
            ) && jv_wf(Jv::Arr(arr_view(items@))),
            Err(_) => jp_arr_first(cs@.skip(i as int)) is None,
        },
    decreases cs.len() - i, 2int,
{
    let j = skip_ws(cs, i);
    let ghost s = cs@.skip(i as int);
    let ghost t = cs@.skip(j as int);
    proof {
        assert forall|m: int| 0 <= m < j - i implies is_ws(#[trigger] s[m]) by {
            assert(s[m] == cs@[i + m]);
        }
        lemma_ws_arr_first_skip(s, j - i);
        assert(s.skip(j - i) =~= t);
        assert(forall|k: int| 0 <= k < t.len() ==> t[k] == cs@[j + k]);
    }
    if j == cs.len() {
        return (Err(JsonError { pos: j }), j);
    }
    if cs[j] == ']' {
        let items: Vec<Json> = Vec::new();
        proof {
            assert(arr_view(items@) =~= Seq::<Jv>::empty());
            assert(jp_arr_first(t) == Some((Seq::<Jv>::empty(), 1int)));
        }
        (Ok(items), j + 1)
    } else {
        let (rn, j2) = p_arr_next(cs, j);
        proof {
            assert(jp_arr_first(t) == jp_arr_next(t));
        }
        match rn {
            Ok(items) => (Ok(items), j2),
            Err(e) => (Err(e), j),
        }
    }
}

/// Reads one array item and whatever follows it.
fn p_arr_next(cs: &Vec<char>, i: usize) -> (r: (Result<Vec<Json>, JsonError>, usize))
    requires
        i <= cs.len(),
    ensures
        i <= r.1 <= cs.len(),
        match r.0 {
            Ok(items) => jp_arr_next(cs@.skip(i as int)) == Some(
                (arr_view(items@), r.1 - i as int),
            ) && jv_wf(Jv::Arr(arr_view(items@))),
            Err(_) => jp_arr_next(cs@.skip(i as int)) is None,
        },
    decreases cs.len() - i, 1int,
{
    let ghost s = cs@.skip(i as int);
    if i == cs.len() {
        return (Err(JsonError { pos: i }), i);
    }
    let (rv, j2) = p_val(cs, i);
    match rv {
        Ok(v) => {
            proof {
                assert(adv(s, j2 - i) =~= cs@.skip(j2 as int));
            }
            let (rr, j3) = p_arr_rest(cs, j2);
            match rr {
                Ok(mut items) => {
                    let ghost pre = items@;
                    let ghost vg = v;
                    let ghost vv = v.deep_view();
                    items.insert(0, v);
                    proof {
                        assert(items@ == pre.insert(0, vg));
                        pre.insert_ensures(0, vg);
                        assert forall|k: int| 0 <= k < items@.len() implies arr_view(items@)[k]
                            == (seq![vv] + arr_view(pre))[k] by {
                            if k == 0 {
                                assert(items@[0] == vg);
                            } else {
                                assert(items@[k] == pre[k - 1]);
                            }
                        }
                        assert(arr_view(items@) =~= seq![vv] + arr_view(pre));
                        lemma_wf_seq_cons(vv, arr_view(pre));
                    }
                    (Ok(items), j3)
                },
                Err(e) => (Err(e), j3),
            }
        },
        Err(e) => (Err(e), j2),
    }
}

/// Reads what follows an array item: `]` or `,` and further items.
fn p_arr_rest(cs: &Vec<char>, i: usize) -> (r: (Result<Vec<Json>, JsonError>, usize))
    requires
        i <= cs.len(),
    ensures
        i <= r.1 <= cs.len(),
        match r.0 {
            Ok(items) => jp_arr_rest(cs@.skip(i as int)) == Some(
                (arr_view(items@), r.1 - i as int),
            ) && jv_wf(Jv::Arr(arr_view(items@))),
            Err(_) => jp_arr_rest(cs@.skip(i as int)) is None,
        },
    decreases cs.len() - i, 1int,
{
    let j = skip_ws(cs, i);
    let ghost s = cs@.skip(i as int);
    let ghost t = cs@.skip(j as int);
    proof {
        assert forall|m: int| 0 <= m < j - i implies is_ws(#[trigger] s[m]) by {
            assert(s[m] == cs@[i + m]);
        }
        lemma_ws_arr_rest_skip(s, j - i);
        assert(s.skip(j - i) =~= t);
        assert(forall|k: int| 0 <= k < t.len() ==> t[k] == cs@[j + k]);
    }
    if j == cs.len() {
        return (Err(JsonError { pos: j }), j);
    }
    if cs[j] == ']' {
        let items: Vec<Json> = Vec::new();
        proof {
            assert(arr_view(items@) =~= Seq::<Jv>::empty());
        }
        (Ok(items), j + 1)
    } else if cs[j] == ',' {
        proof {
            assert(t.drop_first() =~= cs@.skip(j + 1));
        }
        let (rn, j2) = p_arr_next(cs, j + 1);
        match rn {
            Ok(items) => (Ok(items), j2),
            Err(e) => (Err(e), j),
        }
    } else {
        (Err(JsonError { pos: j }), j)
    }
}

/// Reads the entries of an object, starting just past `{`.
#[verifier::rlimit(100)]
fn p_obj_first(cs: &Vec<char>, i: usize) -> (r: (Result<Vec<(String, Json)>, JsonError>, usize))
    requires
        i <= cs.len(),
    ensures
        i <= r.1 <= cs.len(),
        match r.0 {
            Ok(entries) => jp_obj_first(cs@.skip(i as int)) == Some(
                (obj_view(entries@), r.1 - i as int),
            ) && jv_wf(Jv::Obj(obj_view(entries@))),
            Err(_) => jp_obj_first(cs@.skip(i as int)) is None,
        },
    decreases cs.len() - i, 3int,
{
    let j = skip_ws(cs, i);
    let ghost s = cs@.skip(i as int);
    let ghost t = cs@.skip(j as int);
    proof {
        assert forall|m: int| 0 <= m < j - i implies is_ws(#[trigger] s[m]) by {
            assert(s[m] == cs@[i + m]);
        }
        lemma_ws_obj_first_skip(s, j - i);
        assert(s.skip(j - i) =~= t);
        assert(forall|k: int| 0 <= k < t.len() ==> t[k] == cs@[j + k]);
    }
    if j == cs.len() {
        return (Err(JsonError { pos: j }), j);
    }
    if cs[j] == '}' {
        let entries: Vec<(String, Json)> = Vec::new();
        proof {
            assert(obj_view(entries@) =~= Seq::<(Seq<char>, Jv)>::empty());
            assert(jp_obj_first(t) == Some((Seq::<(Seq<char>, Jv)>::empty(), 1int)));
        }
        (Ok(entries), j + 1)
    } else {
        let (rn, j2) = p_obj_next(cs, j);
        proof {
            assert(jp_obj_first(t) == jp_obj_next(t));
        }
        match rn {
            Ok(entries) => (Ok(entries), j2),
            Err(e) => (Err(e), j),
        }
    }
}

proof fn lemma_entry_some(t: Seq<char>, kv: Seq<char>, kn: int, vv: Jv, vn: int)
    requires
        t.len() > 0,
        t[0] == '"',
        jp_str(t.drop_first()) == Some((kv, kn)),
        1 <= 1 + kn <= t.len(),
        jp_entry_val(t.skip(1 + kn)) == Some((vv, vn)),
    ensures
        jp_entry(t) == Some(((kv, vv), 1 + kn + vn)),
{
    assert(adv(t, 1 + kn) =~= t.skip(1 + kn));
}

proof fn lemma_entry_none(t: Seq<char>)
    requires
        t.len() > 0,
        !is_ws(t[0]),
        t[0] == '"' ==> jp_str(t.drop_first()) is None,
    ensures
        jp_entry(t) is None,
{
}

proof fn lemma_entry_none_val(t: Seq<char>, kv: Seq<char>, kn: int)
    requires
        t.len() > 0,
        t[0] == '"',
        jp_str(t.drop_first()) == Some((kv, kn)),
        1 <= 1 + kn <= t.len(),
        jp_entry_val(t.skip(1 + kn)) is None,
    ensures
        jp_entry(t) is None,
{
    assert(adv(t, 1 + kn) =~= t.skip(1 + kn));
}

/// Reads one `"key": value` entry.
#[verifier::rlimit(100)]
fn p_entry(cs: &Vec<char>, i: usize) -> (r: (Result<(String, Json), JsonError>, usize))
    requires
        i <= cs.len(),
    ensures
        i <= r.1 <= cs.len(),
        match r.0 {
            Ok(e) => jp_entry(cs@.skip(i as int)) == Some((entry_view(e), r.1 - i as int))
                && jv_wf(entry_view(e).1) && r.1 > i,
            Err(_) => jp_entry(cs@.skip(i as int)) is None,
        },
    decreases cs.len() - i, 1int,
{
    let j = skip_ws(cs, i);
    let ghost s = cs@.skip(i as int);
    let ghost t = cs@.skip(j as int);
    proof {
        assert forall|m: int| 0 <= m < j - i implies is_ws(#[trigger] s[m]) by {
            assert(s[m] == cs@[i + m]);
        }
        lemma_ws_entry_skip(s, j - i);
        assert(s.skip(j - i) =~= t);
        assert(t.len() > 0 ==> t[0] == cs@[j as int]);
    }
    if j == cs.len() {
        return (Err(JsonError { pos: j }), j);
    }
    if cs[j] != '"' {
        proof {
            lemma_entry_none(t);
        }
        return (Err(JsonError { pos: j }), j);
    }
    proof {
        assert(t.drop_first() =~= cs@.skip(j + 1));
    }
    let (rk, j2) = p_str(cs, j + 1);
    match rk {
        Ok(kbuf) => {
            let (rv, j3) = p_entry_val(cs, j2);
            proof {
                assert(t.skip(1 + (j2 - (j + 1))) =~= cs@.skip(j2 as int));
            }
            match rv {
                Ok(v) => {
                    proof {
                        lemma_entry_some(t, kbuf@, j2 - (j + 1), v.deep_view(), j3 - j2);
                    }
                    let key = chars_into_string(&kbuf);
                    (Ok((key, v)), j3)
                },
                Err(e) => {
                    proof {
                        lemma_entry_none_val(t, kbuf@, j2 - (j + 1));
                    }
                    (Err(e), j3)
                },
            }
        },
        Err(e) => {
            proof {
                lemma_entry_none(t);
            }
            (Err(e), j)
        },
    }
}

/// Relates an entry inserted at the front to the object's model.
proof fn lemma_obj_insert(pre: Seq<(String, Json)>, eg: (String, Json), kv: Seq<char>, vv: Jv)
    requires
        entry_view(eg) == (kv, vv),
        jv_wf(vv),
        jv_wf(Jv::Obj(obj_view(pre))),
    ensures
        obj_view(pre.insert(0, eg)) == seq![(kv, vv)] + obj_view(pre),
        jv_wf(Jv::Obj(obj_view(pre.insert(0, eg)))),
{
    let post = pre.insert(0, eg);
    pre.insert_ensures(0, eg);
    assert forall|k: int| 0 <= k < post.len() implies obj_view(post)[k] == (seq![(kv, vv)]
        + obj_view(pre))[k] by {
        if k == 0 {
            assert(post[0] == eg);
        } else {
            assert(post[k] == pre[k - 1]);
        }
    }
    assert(obj_view(post) =~= seq![(kv, vv)] + obj_view(pre));
    lemma_wf_entries_cons((kv, vv), obj_view(pre));
}

/// Reads one object entry and whatever follows it.
fn p_obj_next(cs: &Vec<char>, i: usize) -> (r: (Result<Vec<(String, Json)>, JsonError>, usize))
    requires
        i <= cs.len(),
    ensures
        i <= r.1 <= cs.len(),
        match r.0 {
            Ok(entries) => jp_obj_next(cs@.skip(i as int)) == Some(
                (obj_view(entries@), r.1 - i as int),
            ) && jv_wf(Jv::Obj(obj_view(entries@))),
            Err(_) => jp_obj_next(cs@.skip(i as int)) is None,
        },
    decreases cs.len() - i, 2int,
{
    let ghost s = cs@.skip(i as int);
    if i == cs.len() {
        return (Err(JsonError { pos: i }), i);
    }
    let (re, j2) = p_entry(cs, i);
    match re {
        Ok(e) => {
            proof {
                assert(adv(s, j2 - i) =~= cs@.skip(j2 as int));
            }
            let (rr, j3) = p_obj_rest(cs, j2);
            match rr {
                Ok(mut entries) => {
                    let ghost pre = entries@;
                    let ghost eg = e;
                    let ghost kv = entry_view(e).0;
                    let ghost vv = entry_view(e).1;
                    entries.insert(0, e);
                    proof {
                        assert(entries@ == pre.insert(0, eg));
                        lemma_obj_insert(pre, eg, kv, vv);
                    }
                    (Ok(entries), j3)
                },
                Err(e2) => (Err(e2), j3),
            }
        },
        Err(e) => (Err(e), j2),
    }
}

/// Reads `:` and an entry's value.
fn p_entry_val(cs: &Vec<char>, i: usize) -> (r: (Result<Json, JsonError>, usize))
    requires
        i <= cs.len(),
    ensures
        i <= r.1 <= cs.len(),
        match r.0 {
            Ok(v) => jp_entry_val(cs@.skip(i as int)) == Some((v.deep_view(), r.1 - i as int))
                && jv_wf(v.deep_view()),
            Err(_) => jp_entry_val(cs@.skip(i as int)) is None,
        },
    decreases cs.len() - i, 1int,
{
    let j = skip_ws(cs, i);
    let ghost s = cs@.skip(i as int);
    let ghost t = cs@.skip(j as int);
    proof {
        assert forall|m: int| 0 <= m < j - i implies is_ws(#[trigger] s[m]) by {
            assert(s[m] == cs@[i + m]);
        }
        lemma_ws_entry_val_skip(s, j - i);
        assert(s.skip(j - i) =~= t);
    }
    if j == cs.len() {
        return (Err(JsonError { pos: j }), j);
    }
    if cs[j] != ':' {
        return (Err(JsonError { pos: j }), j);
    }
    proof {
        assert(t[0] == cs@[j as int]);
        assert(t.drop_first() =~= cs@.skip(j + 1));
    }
    let (rv, j2) = p_val(cs, j + 1);
    match rv {
        Ok(v) => (Ok(v), j2),
        Err(e) => (Err(e), j),
    }
}

/// Reads what follows an object entry: `}` or `,` and further entries.
#[verifier::rlimit(100)]
fn p_obj_rest(cs: &Vec<char>, i: usize) -> (r: (Result<Vec<(String, Json)>, JsonError>, usize))
    requires
        i <= cs.len(),
    ensures
        i <= r.1 <= cs.len(),
        match r.0 {
            Ok(entries) => jp_obj_rest(cs@.skip(i as int)) == Some(
                (obj_view(entries@), r.1 - i as int),
            ) && jv_wf(Jv::Obj(obj_view(entries@))),
            Err(_) => jp_obj_rest(cs@.skip(i as int)) is None,
        },
    decreases cs.len() - i, 1int,
{
    let j = skip_ws(cs, i);
    let ghost s = cs@.skip(i as int);
    let ghost t = cs@.skip(j as int);
    proof {
        assert forall|m: int| 0 <= m < j - i implies is_ws(#[trigger] s[m]) by {
            assert(s[m] == cs@[i + m]);
        }
        lemma_ws_obj_rest_skip(s, j - i);
        assert(s.skip(j - i) =~= t);
        assert(forall|k: int| 0 <= k < t.len() ==> t[k] == cs@[j + k]);
    }
    if j == cs.len() {
        return (Err(JsonError { pos: j }), j);
    }
    if cs[j] == '}' {
        let entries: Vec<(String, Json)> = Vec::new();
        proof {
            assert(obj_view(entries@) =~= Seq::<(Seq<char>, Jv)>::empty());
        }
        (Ok(entries), j + 1)
    } else if cs[j] == ',' {
        proof {
            assert(t.drop_first() =~= cs@.skip(j + 1));
        }
        let (rn, j2) = p_obj_next(cs, j + 1);
        match rn {
            Ok(entries) => (Ok(entries), j2),
            Err(e) => (Err(e), j),
        }
    } else {
        (Err(JsonError { pos: j }), j)
    }
}

/// Parse of a whole document: one value, with only whitespace after it.
pub open spec fn jparse(s: Seq<char>) -> Option<Jv> {
    match jp_val(s) {
        Some((v, n)) => if 0 <= n <= s.len() && (forall|k: int|
            n <= k < s.len() ==> is_ws(#[trigger] s[k])) {
            Some(v)
        } else {
            None
        },
        None => None,
    }
}

/// Parses a JSON document: one value with only whitespace around it.
pub fn parse_json(text: &str) -> (r: Result<Json, JsonError>)
    ensures
        match r {
            Ok(v) => jparse(text@) == Some(v.deep_view()) && jv_wf(v.deep_view()),
            Err(_) => jparse(text@) is None,
        },
{
    let cs = str_to_chars(text);
    proof {
        assert(cs@.skip(0) =~= text@);
    }
    let (r0, j) = p_val(&cs, 0);
    match r0 {
        Ok(v) => {
            let j2 = skip_ws(&cs, j);
            if j2 == cs.len() {
                proof {
                    assert(forall|k: int| j <= k < cs@.len() ==> is_ws(#[trigger] cs@[k]));
                }
                Ok(v)
            } else {
                proof {
                    assert(!is_ws(cs@[j2 as int]));
                }
                Err(JsonError { pos: j2 })
            }
        },
        Err(e) => Err(e),
    }
}

impl JsonNum {
    /// A copy of this number.
    pub fn dup(&self) -> (r: JsonNum)
        ensures
            r.text@ == self.text@,
    {
        JsonNum { text: self.text.clone() }
    }

    /// Whether the text is a well-formed JSON number literal.
    pub fn is_well_formed(&self) -> (r: bool)
        ensures
            r == is_num_lit(self.text@),
    {
        let cs = str_to_chars(self.text.as_str());
        check_num_chars(&cs)
    }

    /// Builds a number from its decimal text, when the text is a
    /// well-formed JSON number literal.
    pub fn new(text: &str) -> (r: Option<JsonNum>)
        ensures
            match r {
                Some(n) => n.text@ == text@ && is_num_lit(text@),
                None => !is_num_lit(text@),
            },
    {
        let cs = str_to_chars(text);
        if check_num_chars(&cs) {
            Some(JsonNum { text: text.to_owned() })
        } else {
            None
        }
    }
}

/// First value bound to `key` in the entries of an object, if any.
pub open spec fn jv_lookup(kvs: Seq<(Seq<char>, Jv)>, key: Seq<char>) -> Option<Jv>
    decreases kvs.len(),
{
    if kvs.len() == 0 {
        None
    } else if kvs[0].0 == key {
        Some(kvs[0].1)
    } else {
        jv_lookup(kvs.drop_first(), key)
    }
}

/// Finds a key at a known index: the first `i` entries bind other keys.
pub proof fn lemma_jv_lookup_at(kvs: Seq<(Seq<char>, Jv)>, key: Seq<char>, i: int)
    requires
        0 <= i < kvs.len(),
        kvs[i].0 == key,
        forall|j: int| 0 <= j < i ==> (#[trigger] kvs[j]).0 != key,
    ensures
        jv_lookup(kvs, key) == Some(kvs[i].1),
    decreases i,
{
    if i > 0 {
        assert(kvs[0].0 != key);
        assert forall|j: int| 0 <= j < i - 1 implies (#[trigger] kvs.drop_first()[j]).0 != key by {
            assert(kvs.drop_first()[j] == kvs[j + 1]);
        }
        lemma_jv_lookup_at(kvs.drop_first(), key, i - 1);
        assert(kvs.drop_first()[i - 1] == kvs[i]);
    }
}

impl Json {
    /// Looks up `key` among the entries, when `self` is an object.
    ///
    /// For any other kind of value the result is `None`, as it is for an
    /// object without such a key.
    pub fn get<'a>(&'a self, key: &str) -> (r: Option<&'a Json>)
        ensures
            self.deep_view() matches Jv::Obj(kvs) ==> match r {
                Some(v) => jv_lookup(kvs, key@) == Some(v.deep_view()),
                None => jv_lookup(kvs, key@) is None,
            },
            !(self.deep_view() is Obj) ==> r is None,
    {
        match self {
            Json::Obj(o) => {
                let ghost kvs = obj_view(o@);
                proof {
                    assert(self.deep_view() == Jv::Obj(kvs));
                }
                proof {
                    assert(kvs.skip(0) =~= kvs);
                }
                let mut i: usize = 0;
                while i < o.len()
                    invariant
                        i <= o.len(),
                        self.deep_view() == Jv::Obj(kvs),
                        kvs == obj_view(o@),
                        kvs.len() == o@.len(),
                        jv_lookup(kvs, key@) == jv_lookup(kvs.skip(i as int), key@),
                    decreases o.len() - i,
                {
                    proof {
                        assert(kvs[i as int] == entry_view(o@[i as int]));
                        assert(kvs.skip(i as int)[0] == kvs[i as int]);
                        assert(kvs.skip(i as int).drop_first() =~= kvs.skip(i as int + 1));
                    }
                    if str_eq(o[i].0.as_str(), key) {
                        proof {
                            assert(kvs[i as int].0 == o@[i as int].0@);
                            assert(jv_lookup(kvs.skip(i as int), key@) == Some(kvs[i as int].1));
                            assert(kvs[i as int].1 == o@[i as int].1.deep_view());
                        }
                        return Some(&o[i].1);
                    }
                    proof {
                        assert(kvs[i as int].0 != key@);
                    }
                    i = i + 1;
                }
                proof {
                    assert(kvs.skip(o@.len() as int).len() == 0);
                }
                None
            },
            _ => None,
        }
    }
}

/// Whether two string slices hold the same characters.
pub fn str_eq(a: &str, b: &str) -> (r: bool)
    ensures
        r == (a@ == b@),
{
    let na = a.unicode_len();
    let nb = b.unicode_len();
    if na != nb {
        return false;
    }
    let mut i: usize = 0;
    while i < na
        invariant
            i <= na,
            na == a@.len() == b@.len(),
            forall|k: int| 0 <= k < i ==> a@[k] == b@[k],
        decreases na - i,
    {
        if a.get_char(i) != b.get_char(i) {
            return false;
        }
        i = i + 1;
    }
    proof {
        assert(a@ =~= b@);
    }
    true
}

impl Json {
    /// The compact serialization of `self` as a string.
    pub fn to_text(&self) -> (r: String)
        ensures
            r@ == jser(self.deep_view()),
    {
        let mut out: Vec<char> = Vec::new();
        self.write(&mut out);
        chars_into_string(&out)
    }

    /// Appends the compact serialization of `self` to `out`.
    pub fn write(&self, out: &mut Vec<char>)
        ensures
            final(out)@ == old(out)@ + jser(self.deep_view()),
        decreases self,
    {
        match self {
            Json::Null => {
                push_str_chars(out, "null");
                proof {
                    reveal_strlit("null");
                    assert("null"@ =~= seq!['n', 'u', 'l', 'l']);
                }
            },
            Json::Bool(b) => {
                if *b {
                    push_str_chars(out, "true");
                    proof {
                        reveal_strlit("true");
                        assert("true"@ =~= seq!['t', 'r', 'u', 'e']);
                    }
                } else {
                    push_str_chars(out, "false");
                    proof {
                        reveal_strlit("false");
                        assert("false"@ =~= seq!['f', 'a', 'l', 's', 'e']);
                    }
                }
            },
            Json::Num(n) => {
                push_str_chars(out, n.text.as_str());
            },
            Json::Str(s) => {
                push_json_string(out, s.as_str());
            },
            Json::Arr(a) => {
                let ghost vs = self.deep_view()->Arr_0;
                out.push('[');
                let mut i: usize = 0;
                while i < a.len()
                    invariant
                        i <= a.len(),
                        self.deep_view() == Jv::Arr(vs),
                        self is Arr && a == self->Arr_0,
                        vs.len() == a@.len(),
                        forall|k: int| 0 <= k < vs.len() ==> vs[k] == #[trigger] a@[k].deep_view(),
                        out@ == old(out)@ + seq!['['] + jser_items(vs.take(i as int)),
                    decreases a.len() - i,
                {
                    if i > 0 {
                        out.push(',');
                    }
                    let e = &a[i];
                    e.write(out);
                    proof {
                        lemma_jser_items_snoc(vs.take(i as int), vs[i as int]);
                        assert(vs.take(i as int).push(vs[i as int]) =~= vs.take(i as int + 1));
                        assert(out@ =~= old(out)@ + seq!['['] + jser_items(vs.take(i as int + 1)));
                    }
                    i = i + 1;
                }
                out.push(']');
                proof {
                    assert(vs.take(a@.len() as int) =~= vs);
                    assert(out@ =~= old(out)@ + jser(self.deep_view()));
                }
            },
            Json::Obj(o) => {
                let ghost kvs = self.deep_view()->Obj_0;
                out.push('{');
                let mut i: usize = 0;
                while i < o.len()
                    invariant
                        i <= o.len(),
                        self.deep_view() == Jv::Obj(kvs),
                        self is Obj && o == self->Obj_0,
                        kvs.len() == o@.len(),
                        forall|k: int| 0 <= k < kvs.len() ==> kvs[k] == #[trigger] entry_view(
                            o@[k],
                        ),
                        out@ == old(out)@ + seq!['{'] + jser_entries(kvs.take(i as int)),
                    decreases o.len() - i,
                {
                    if i > 0 {
                        out.push(',');
                    }
                    let pair = &o[i];
                    push_json_string(out, pair.0.as_str());
                    out.push(':');
                    let val = &pair.1;
                    val.write(out);
                    proof {
                        assert(kvs[i as int] == entry_view(o@[i as int]));
                        assert(kvs[i as int].0 == pair.0@ && kvs[i as int].1 == pair.1.deep_view());
                        lemma_jser_entries_snoc(
                            kvs.take(i as int),
                            kvs[i as int].0,
                            kvs[i as int].1,
                        );
                        assert(kvs.take(i as int).push(kvs[i as int]) =~= kvs.take(i as int + 1));
                        assert(out@ =~= old(out)@ + seq!['{'] + jser_entries(
                            kvs.take(i as int + 1),
                        ));
                    }
                    i = i + 1;
                }
                out.push('}');
                proof {
                    assert(kvs.take(o@.len() as int) =~= kvs);
                    assert(out@ =~= old(out)@ + jser(self.deep_view()));
                }
            },
        }
    }
}


// ---------------------------------------------------------------------------
// Round trip: parsing the serialization of a well-formed value yields it
// back.
// ---------------------------------------------------------------------------

proof fn lemma_num_sink(s: Seq<char>)
    ensures
        num_state(-1, s) == -1,
    decreases s.len(),
{
    if s.len() > 0 {
        lemma_num_sink(s.drop_first());
    }
}

proof fn lemma_num_all_num_chars(st: int, s: Seq<char>)
    requires
        num_state(st, s) != -1,
    ensures
        forall|i: int| 0 <= i < s.len() ==> num_char(#[trigger] s[i]),
    decreases s.len(),
{
    if s.len() > 0 {
        if !num_char(s[0]) {
            assert(num_step(st, s[0]) == -1);
            lemma_num_sink(s.drop_first());
            assert(false);
        }
        lemma_num_all_num_chars(num_step(st, s[0]), s.drop_first());
        assert forall|i: int| 0 <= i < s.len() implies num_char(#[trigger] s[i]) by {
            if i > 0 {
                assert(num_char(s.drop_first()[i - 1]));
            }
        }
    }
}

proof fn lemma_num_first(t: Seq<char>)
    requires
        is_num_lit(t),
    ensures
        t.len() > 0,
        t[0] == '-' || is_digit(t[0]),
{
    if t.len() == 0 {
        assert(num_state(0, t) == 0);
        assert(false);
    }
    if !(t[0] == '-' || is_digit(t[0])) {
        assert(num_step(0, t[0]) == -1);
        lemma_num_sink(t.drop_first());
        assert(false);
    }
}

proof fn lemma_num_len_exact(t: Seq<char>, rest: Seq<char>)
    requires
        forall|i: int| 0 <= i < t.len() ==> num_char(#[trigger] t[i]),
        rest.len() == 0 || !num_char(rest[0]),
    ensures
        num_len(t + rest) == t.len(),
    decreases t.len(),
{
    if t.len() == 0 {
        assert(t + rest =~= rest);
    } else {
        assert((t + rest)[0] == t[0]);
        assert((t + rest).drop_first() =~= t.drop_first() + rest);
        assert forall|i: int| 0 <= i < t.drop_first().len() implies num_char(
            #[trigger] t.drop_first()[i],
        ) by {
            assert(t.drop_first()[i] == t[i + 1]);
        }
        lemma_num_len_exact(t.drop_first(), rest);
    }
}

/// Characters that can open a serialized JSON value.
spec fn starts_value(c: char) -> bool {
    c == 'n' || c == 't' || c == 'f' || c == '"' || c == '[' || c == '{' || c == '-' || is_digit(c)
}

proof fn lemma_jser_first(v: Jv)
    requires
        jv_wf(v),
    ensures
        jser(v).len() > 0,
        starts_value(jser(v)[0]),
{
    match v {
        Jv::Num(t) => {
            lemma_num_first(t);
        },
        _ => {},
    }
}

proof fn lemma_hex_digit_val(m: int)
    requires
        0 <= m < 16,
    ensures
        hex_val(hex_digit(m)) == m,
{
    if m < 10 {
        if m == 0 { assert('0' as int == 48); } else if m == 1 { assert('1' as int == 49); }
        else if m == 2 { assert('2' as int == 50); } else if m == 3 { assert('3' as int == 51); }
        else if m == 4 { assert('4' as int == 52); } else if m == 5 { assert('5' as int == 53); }
        else if m == 6 { assert('6' as int == 54); } else if m == 7 { assert('7' as int == 55); }
        else if m == 8 { assert('8' as int == 56); } else { assert('9' as int == 57); }
    } else {
        if m == 10 { assert('a' as int == 97); } else if m == 11 { assert('b' as int == 98); }
        else if m == 12 { assert('c' as int == 99); } else if m == 13 { assert('d' as int == 100); }
        else if m == 14 { assert('e' as int == 101); } else { assert('f' as int == 102); }
    }
}




proof fn lemma_jp_str_of_esc(t: Seq<char>, rest: Seq<char>)
    ensures
        jp_str(esc_seq(t) + seq!['"'] + rest) == Some((t, esc_seq(t).len() as int + 1)),
    decreases t.len(),
{
    let s = esc_seq(t) + seq!['"'] + rest;
    if t.len() == 0 {
        assert(s =~= seq!['"'] + rest);
        assert(s[0] == '"');
        assert(jp_str(s) == Some((Seq::<char>::empty(), 1int)));
    } else {
        let c = t[0];
        let e = esc_char(c);
        lemma_jp_str_of_esc(t.drop_first(), rest);
        let inner = esc_seq(t.drop_first()) + seq!['"'] + rest;
        assert(esc_seq(t) == e + esc_seq(t.drop_first()));
        assert(s =~= e + inner);
        assert(forall|i: int| 0 <= i < e.len() ==> s[i] == e[i]);
        if e.len() == 1 {
            assert(s[0] == c);
            assert(c != '"' && c != '\\');
            assert((c as u32) >= 32);
            assert(s.drop_first() =~= inner);
            assert(jp_str(s) == Some((seq![c] + t.drop_first(), 1 + (esc_seq(t.drop_first()).len()
                as int + 1))));
            assert(seq![c] + t.drop_first() =~= t);
        } else if e.len() == 2 {
            assert(s[0] == '\\');
            assert(s[1] == e[1]);
            assert(named_escape(e[1]) == Some(c));
            assert(s.skip(2) =~= inner);
            assert(jp_str(s) == Some((seq![c] + t.drop_first(), 2 + (esc_seq(t.drop_first()).len()
                as int + 1))));
            assert(seq![c] + t.drop_first() =~= t);
        } else {
            let n = c as u32 as int;
            assert(e == seq!['\\', 'u', '0', '0', hex_digit(n / 16), hex_digit(n % 16)]);
            assert(s[0] == '\\' && s[1] == 'u' && s[2] == '0' && s[3] == '0' && s[4]
                == hex_digit(n / 16) && s[5] == hex_digit(n % 16));
            assert(named_escape('u') is None);
            assert('0' as int == 48);
            assert(hex_val('0') == 0);
            lemma_hex_digit_val(n / 16);
            lemma_hex_digit_val(n % 16);
            assert(hex4_val(s, 2) == n);
            assert(n < 0xD800);
            lemma_char_of(c);
            assert(char_of(n) == c);
            assert(s.skip(6) =~= inner);
            assert(jp_str(s) == Some((seq![c] + t.drop_first(), 6 + (esc_seq(t.drop_first()).len()
                as int + 1))));
            assert(seq![c] + t.drop_first() =~= t);
        }
    }
}


#[verifier::rlimit(100)]
proof fn lemma_jval_ser(v: Jv, rest: Seq<char>)
    requires
        jv_wf(v),
        rest.len() == 0 || !num_char(rest[0]),
    ensures
        jp_val(jser(v) + rest) == Some((v, jser(v).len() as int)),
    decreases v, 0int,
{
    let s = jser(v) + rest;
    assert(forall|i: int| 0 <= i < jser(v).len() ==> s[i] == jser(v)[i]);
    match v {
        Jv::Null => {
            assert(s[0] == 'n' && s[1] == 'u' && s[2] == 'l' && s[3] == 'l');
        },
        Jv::Bool(b) => {
            if b {
                assert(s[0] == 't' && s[1] == 'r' && s[2] == 'u' && s[3] == 'e');
            } else {
                assert(s[0] == 'f' && s[1] == 'a' && s[2] == 'l' && s[3] == 's' && s[4] == 'e');
            }
        },
        Jv::Num(t) => {
            lemma_num_first(t);
            assert(s[0] == t[0]);
            lemma_num_all_num_chars(0, t);
            lemma_num_len_exact(t, rest);
            assert(s =~= t + rest);
            assert(s.take(t.len() as int) =~= t);
            assert(jp_num(s) == Some((Jv::Num(t), t.len() as int)));
        },
        Jv::Str(t) => {
            assert(jser(v) == jser_str(t));
            assert(jser_str(t)[0] == '"');
            assert(s[0] == '"');
            assert(s.drop_first() =~= esc_seq(t) + seq!['"'] + rest);
            lemma_jp_str_of_esc(t, rest);
        },
        Jv::Arr(es) => {
            assert(jser(v)[0] == '[');
            assert(s[0] == '[');
            assert(s.drop_first() =~= jser_items(es) + seq![']'] + rest);
            lemma_arr_first(es, rest);
        },
        Jv::Obj(kvs) => {
            assert(jser(v)[0] == '{');
            assert(s[0] == '{');
            assert(s.drop_first() =~= jser_entries(kvs) + seq!['}'] + rest);
            lemma_obj_first(kvs, rest);
        },
    }
}

proof fn lemma_arr_first(es: Seq<Jv>, rest: Seq<char>)
    requires
        jv_wf_seq(es),
    ensures
        jp_arr_first(jser_items(es) + seq![']'] + rest) == Some(
            (es, jser_items(es).len() as int + 1),
        ),
    decreases es, 2int,
{
    let s = jser_items(es) + seq![']'] + rest;
    if es.len() == 0 {
        assert(s =~= seq![']'] + rest);
        assert(s[0] == ']');
        assert(Seq::<Jv>::empty() =~= es);
    } else {
        assert(jv_wf(es[0]));
        lemma_jser_first(es[0]);
        assert(jser_items(es)[0] == jser(es[0])[0]);
        assert(s[0] == jser(es[0])[0]);
        lemma_arr_next(es, rest);
        assert(jp_arr_first(s) == jp_arr_next(s));
    }
}

#[verifier::rlimit(100)]
proof fn lemma_arr_next(es: Seq<Jv>, rest: Seq<char>)
    requires
        es.len() > 0,
        jv_wf_seq(es),
    ensures
        jp_arr_next(jser_items(es) + seq![']'] + rest) == Some(
            (es, jser_items(es).len() as int + 1),
        ),
    decreases es, 1int,
{
    let s = jser_items(es) + seq![']'] + rest;
    let v0 = es[0];
    assert(jv_wf(v0));
    lemma_jser_first(v0);
    let n = jser(v0).len() as int;
    if es.len() == 1 {
        let tail = seq![']'] + rest;
        assert(jser_items(es) == jser(v0));
        assert(s =~= jser(v0) + tail);
        assert(tail[0] == ']');
        lemma_jval_ser(v0, tail);
        assert(jp_val(s) == Some((v0, n)));
        assert(adv(s, n) =~= tail);
        assert(jp_arr_rest(tail) == Some((Seq::<Jv>::empty(), 1int)));
        assert(seq![v0] + Seq::<Jv>::empty() =~= es);
    } else {
        let es1 = es.drop_first();
        assert(jv_wf_seq(es1));
        let tail = seq![','] + jser_items(es1) + seq![']'] + rest;
        assert(jser_items(es) == jser(v0) + seq![','] + jser_items(es1));
        assert(s =~= jser(v0) + tail);
        assert(tail[0] == ',');
        lemma_jval_ser(v0, tail);
        assert(jp_val(s) == Some((v0, n)));
        assert(adv(s, n) =~= tail);
        assert(tail.drop_first() =~= jser_items(es1) + seq![']'] + rest);
        lemma_arr_next(es1, rest);
        assert(jp_arr_rest(tail) == Some((es1, 1 + (jser_items(es1).len() as int + 1))));
        assert(seq![v0] + es1 =~= es);
        assert(jser_items(es).len() == jser(v0).len() + 1 + jser_items(es1).len());
    }
}

proof fn lemma_obj_first(kvs: Seq<(Seq<char>, Jv)>, rest: Seq<char>)
    requires
        jv_wf_entries(kvs),
    ensures
        jp_obj_first(jser_entries(kvs) + seq!['}'] + rest) == Some(
            (kvs, jser_entries(kvs).len() as int + 1),
        ),
    decreases kvs, 3int,
{
    let s = jser_entries(kvs) + seq!['}'] + rest;
    if kvs.len() == 0 {
        assert(s =~= seq!['}'] + rest);
        assert(s[0] == '}');
        assert(Seq::<(Seq<char>, Jv)>::empty() =~= kvs);
    } else {
        assert(jser_entries(kvs)[0] == jser_str(kvs[0].0)[0]);
        assert(jser_str(kvs[0].0)[0] == '"');
        assert(s[0] == '"');
        lemma_obj_next(kvs, rest);
        assert(jp_obj_first(s) == jp_obj_next(s));
    }
}

#[verifier::rlimit(100)]
proof fn lemma_obj_next(kvs: Seq<(Seq<char>, Jv)>, rest: Seq<char>)
    requires
        kvs.len() > 0,
        jv_wf_entries(kvs),
    ensures
        jp_obj_next(jser_entries(kvs) + seq!['}'] + rest) == Some(
            (kvs, jser_entries(kvs).len() as int + 1),
        ),
    decreases kvs, 2int,
{
    let s = jser_entries(kvs) + seq!['}'] + rest;
    let k = kvs[0].0;
    let v0 = kvs[0].1;
    assert(jv_wf(v0));
    assert(decreases_to!(kvs => kvs[0]));
    let entry_text = jser_str(k) + seq![':'] + jser(v0);
    let tail = if kvs.len() == 1 {
        seq!['}'] + rest
    } else {
        seq![','] + jser_entries(kvs.drop_first()) + seq!['}'] + rest
    };
    if kvs.len() == 1 {
        assert(jser_entries(kvs) == entry_text);
    } else {
        assert(jser_entries(kvs) == entry_text + seq![','] + jser_entries(kvs.drop_first()));
    }
    assert(s =~= entry_text + tail);
    assert(forall|i: int| 0 <= i < entry_text.len() ==> s[i] == entry_text[i]);
    // the entry itself
    assert(s[0] == '"');
    let rest2 = seq![':'] + jser(v0) + tail;
    assert(s.drop_first() =~= esc_seq(k) + seq!['"'] + rest2);
    lemma_jp_str_of_esc(k, rest2);
    let kn = esc_seq(k).len() as int + 1;
    assert(adv(s, 1 + kn) =~= rest2);
    assert(rest2[0] == ':');
    assert(rest2.drop_first() =~= jser(v0) + tail);
    assert(tail[0] == '}' || tail[0] == ',');
    lemma_jval_ser(v0, tail);
    let vn = 1 + jser(v0).len() as int;
    assert(jp_entry_val(rest2) == Some((v0, vn)));
    assert(jp_entry(s) == Some(((k, v0), 1 + kn + vn)));
    assert(entry_text.len() == 1 + kn + vn);
    assert(adv(s, 1 + kn + vn) =~= tail);
    if kvs.len() == 1 {
        assert(jp_obj_rest(tail) == Some((Seq::<(Seq<char>, Jv)>::empty(), 1int)));
        assert(seq![(k, v0)] + Seq::<(Seq<char>, Jv)>::empty() =~= kvs);
    } else {
        let kvs1 = kvs.drop_first();
        assert(jv_wf_entries(kvs1));
        assert(tail.drop_first() =~= jser_entries(kvs1) + seq!['}'] + rest);
        lemma_obj_next(kvs1, rest);
        assert(jp_obj_rest(tail) == Some((kvs1, 1 + (jser_entries(kvs1).len() as int + 1))));
        assert(seq![(k, v0)] + kvs1 =~= kvs);
        assert(jser_entries(kvs).len() == entry_text.len() + 1 + jser_entries(kvs1).len());
    }
}

/// Parsing the serialization of a well-formed value yields it back.
pub proof fn lemma_parse_of_jser(v: Jv)
    requires
        jv_wf(v),
    ensures
        jparse(jser(v)) == Some(v),
{
    lemma_jval_ser(v, Seq::empty());
    assert(jser(v) + Seq::<char>::empty() =~= jser(v));
}




// ---------------------------------------------------------------------------
// Pretty serialization: newline-and-indent formatting, two spaces per
// level, as the saved file format. The parser skips whitespace, and the
// round trip below is proved for exactly this text.
// ---------------------------------------------------------------------------

/// A newline followed by two spaces per indentation level.
pub open spec fn nl_indent(d: nat) -> Seq<char>
    decreases d,
{
    if d == 0 {
        seq!['\n']
    } else {
        nl_indent((d - 1) as nat) + seq![' ', ' ']
    }
}

/// Pretty serialization of a JSON value at indentation depth `d`.
pub open spec fn jser_pretty(v: Jv, d: nat) -> Seq<char>
    decreases v, 1int,
{
    match v {
        Jv::Null => seq!['n', 'u', 'l', 'l'],
        Jv::Bool(b) => if b { seq!['t', 'r', 'u', 'e'] } else { seq!['f', 'a', 'l', 's', 'e'] },
        Jv::Num(t) => t,
        Jv::Str(t) => jser_str(t),
        Jv::Arr(es) => if es.len() == 0 {
            seq!['[', ']']
        } else {
            seq!['['] + nl_indent(d + 1) + jser_items_pretty(es, (d + 1) as nat) + nl_indent(d)
                + seq![']']
        },
        Jv::Obj(kvs) => if kvs.len() == 0 {
            seq!['{', '}']
        } else {
            seq!['{'] + nl_indent(d + 1) + jser_entries_pretty(kvs, (d + 1) as nat) + nl_indent(d)
                + seq!['}']
        },
    }
}

/// Array items at depth `d`, separated by a comma and a fresh line.
pub open spec fn jser_items_pretty(es: Seq<Jv>, d: nat) -> Seq<char>
    decreases es, 0int,
{
    if es.len() == 0 {
        Seq::empty()
    } else if es.len() == 1 {
        jser_pretty(es[0], d)
    } else {
        jser_pretty(es[0], d) + seq![','] + nl_indent(d) + jser_items_pretty(es.drop_first(), d)
    }
}

/// Object entries at depth `d`: `"key": value`, separated like items.
pub open spec fn jser_entries_pretty(kvs: Seq<(Seq<char>, Jv)>, d: nat) -> Seq<char>
    decreases kvs, 0int,
{
    if kvs.len() == 0 {
        Seq::empty()
    } else if kvs.len() == 1 {
        jser_str(kvs[0].0) + seq![':', ' '] + jser_pretty(kvs[0].1, d)
    } else {
        jser_str(kvs[0].0) + seq![':', ' '] + jser_pretty(kvs[0].1, d) + seq![','] + nl_indent(d)
            + jser_entries_pretty(kvs.drop_first(), d)
    }
}

proof fn lemma_nl_indent_ws(d: nat)
    ensures
        nl_indent(d).len() == 1 + 2 * d,
        forall|i: int| 0 <= i < nl_indent(d).len() ==> is_ws(#[trigger] nl_indent(d)[i]),
    decreases d,
{
    if d > 0 {
        lemma_nl_indent_ws((d - 1) as nat)
    }
}

proof fn lemma_jser_pretty_first(v: Jv, d: nat)
    requires
        jv_wf(v),
    ensures
        jser_pretty(v, d).len() > 0,
        starts_value(jser_pretty(v, d)[0]),
{
    match v {
        Jv::Num(t) => {
            lemma_num_first(t);
        },
        _ => {},
    }
}


#[verifier::rlimit(100)]
proof fn lemma_jval_pretty(v: Jv, d: nat, rest: Seq<char>)
    requires
        jv_wf(v),
        rest.len() == 0 || !num_char(rest[0]),
    ensures
        jp_val(jser_pretty(v, d) + rest) == Some((v, jser_pretty(v, d).len() as int)),
    decreases v, 0int,
{
    let s = jser_pretty(v, d) + rest;
    assert(forall|i: int| 0 <= i < jser_pretty(v, d).len() ==> s[i] == jser_pretty(v, d)[i]);
    match v {
        Jv::Null => {
            assert(jser_pretty(v, d) == jser(v));
            assert(s =~= jser(v) + rest);
            lemma_jval_ser(v, rest);
        },
        Jv::Bool(b) => {
            assert(jser_pretty(v, d) == jser(v));
            assert(s =~= jser(v) + rest);
            lemma_jval_ser(v, rest);
        },
        Jv::Num(t) => {
            assert(jser_pretty(v, d) == jser(v));
            assert(s =~= jser(v) + rest);
            lemma_jval_ser(v, rest);
        },
        Jv::Str(t) => {
            assert(jser_pretty(v, d) == jser(v));
            assert(s =~= jser(v) + rest);
            lemma_jval_ser(v, rest);
        },
        Jv::Arr(es) => {
            if es.len() == 0 {
                assert(s[0] == '[');
                assert(s.drop_first() =~= seq![']'] + rest);
                assert(s.drop_first()[0] == ']');
                assert(jp_arr_first(s.drop_first()) == Some((Seq::<Jv>::empty(), 1int)));
                assert(Seq::<Jv>::empty() =~= es);
            } else {
                lemma_arr_pretty_case(es, d, rest);
            }
        },
        Jv::Obj(kvs) => {
            if kvs.len() == 0 {
                assert(s[0] == '{');
                assert(s.drop_first() =~= seq!['}'] + rest);
                assert(s.drop_first()[0] == '}');
                assert(jp_obj_first(s.drop_first()) == Some(
                    (Seq::<(Seq<char>, Jv)>::empty(), 1int),
                ));
                assert(Seq::<(Seq<char>, Jv)>::empty() =~= kvs);
            } else {
                lemma_obj_pretty_case(kvs, d, rest);
            }
        },
    }
}

#[verifier::rlimit(100)]
proof fn lemma_arr_pretty_case(es: Seq<Jv>, d: nat, rest: Seq<char>)
    requires
        es.len() > 0,
        jv_wf_seq(es),
    ensures
        jp_val(jser_pretty(Jv::Arr(es), d) + rest) == Some(
            (Jv::Arr(es), jser_pretty(Jv::Arr(es), d).len() as int),
        ),
    decreases es, 3int,
{
    let v = Jv::Arr(es);
    let s = jser_pretty(v, d) + rest;
    assert(forall|i: int| 0 <= i < jser_pretty(v, d).len() ==> s[i] == jser_pretty(v, d)[i]);
    assert(s[0] == '[');
    let d1 = (d + 1) as nat;
    let body = nl_indent(d1) + jser_items_pretty(es, d1) + nl_indent(d) + seq![']'] + rest;
    assert(s.drop_first() =~= body);
    lemma_nl_indent_ws(d1);
    lemma_nl_indent_ws(d);
    assert forall|m: int| 0 <= m < nl_indent(d1).len() implies is_ws(#[trigger] body[m]) by {
        assert(body[m] == nl_indent(d1)[m]);
    }
    lemma_ws_arr_first_skip(body, nl_indent(d1).len() as int);
    let body2 = jser_items_pretty(es, d1) + nl_indent(d) + seq![']'] + rest;
    assert(body.skip(nl_indent(d1).len() as int) =~= body2);
    assert(jv_wf(es[0]));
    lemma_jser_pretty_first(es[0], d1);
    assert(jser_items_pretty(es, d1)[0] == jser_pretty(es[0], d1)[0]);
    assert(body2[0] == jser_pretty(es[0], d1)[0]);
    assert(Seq::<char>::empty() + body2 =~= body2);
    lemma_items_pretty_rt(Seq::empty(), es, d1, nl_indent(d), rest);
    assert(jp_arr_first(body2) == jp_arr_next(body2));
}

#[verifier::rlimit(100)]
proof fn lemma_obj_pretty_case(kvs: Seq<(Seq<char>, Jv)>, d: nat, rest: Seq<char>)
    requires
        kvs.len() > 0,
        jv_wf_entries(kvs),
    ensures
        jp_val(jser_pretty(Jv::Obj(kvs), d) + rest) == Some(
            (Jv::Obj(kvs), jser_pretty(Jv::Obj(kvs), d).len() as int),
        ),
    decreases kvs, 3int,
{
    let v = Jv::Obj(kvs);
    let s = jser_pretty(v, d) + rest;
    assert(forall|i: int| 0 <= i < jser_pretty(v, d).len() ==> s[i] == jser_pretty(v, d)[i]);
    assert(s[0] == '{');
    let d1 = (d + 1) as nat;
    let body = nl_indent(d1) + jser_entries_pretty(kvs, d1) + nl_indent(d) + seq!['}'] + rest;
    assert(s.drop_first() =~= body);
    lemma_nl_indent_ws(d1);
    lemma_nl_indent_ws(d);
    assert forall|m: int| 0 <= m < nl_indent(d1).len() implies is_ws(#[trigger] body[m]) by {
        assert(body[m] == nl_indent(d1)[m]);
    }
    lemma_ws_obj_first_skip(body, nl_indent(d1).len() as int);
    let body2 = jser_entries_pretty(kvs, d1) + nl_indent(d) + seq!['}'] + rest;
    assert(body.skip(nl_indent(d1).len() as int) =~= body2);
    assert(jser_entries_pretty(kvs, d1)[0] == jser_str(kvs[0].0)[0]);
    assert(jser_str(kvs[0].0)[0] == '"');
    assert(body2[0] == '"');
    assert(Seq::<char>::empty() + body2 =~= body2);
    lemma_entries_pretty_rt(Seq::empty(), kvs, d1, nl_indent(d), rest);
    assert(jp_obj_first(body2) == jp_obj_next(body2));
}

/// One pretty value, preceded by whitespace, reads back as itself.
proof fn lemma_item_pretty_rt(ws: Seq<char>, v0: Jv, d: nat, tail: Seq<char>)
    requires
        jv_wf(v0),
        forall|i: int| 0 <= i < ws.len() ==> is_ws(#[trigger] ws[i]),
        tail.len() == 0 || !num_char(tail[0]),
    ensures
        jp_val(ws + jser_pretty(v0, d) + tail) == Some(
            (v0, ws.len() + jser_pretty(v0, d).len() as int),
        ),
    decreases v0, 1int,
{
    let s = ws + jser_pretty(v0, d) + tail;
    assert(s =~= ws + (jser_pretty(v0, d) + tail));
    assert forall|m: int| 0 <= m < ws.len() implies is_ws(#[trigger] s[m]) by {
        assert(s[m] == ws[m]);
    }
    lemma_ws_val_skip(s, ws.len() as int);
    assert(s.skip(ws.len() as int) =~= jser_pretty(v0, d) + tail);
    lemma_jval_pretty(v0, d, tail);
}

/// Items preceded by whitespace and followed by a whitespace run and `]`
/// parse back to themselves.
#[verifier::rlimit(100)]
proof fn lemma_items_pretty_rt(ws: Seq<char>, es: Seq<Jv>, d: nat, close: Seq<char>, rest: Seq<
    char,
>)
    requires
        es.len() > 0,
        jv_wf_seq(es),
        forall|i: int| 0 <= i < ws.len() ==> is_ws(#[trigger] ws[i]),
        forall|i: int| 0 <= i < close.len() ==> is_ws(#[trigger] close[i]),
    ensures
        jp_arr_next(ws + jser_items_pretty(es, d) + close + seq![']'] + rest) == Some(
            (
                es,
                ws.len() + jser_items_pretty(es, d).len() + close.len() + 1int,
            ),
        ),
    decreases es, 1int,
{
    let v0 = es[0];
    assert(jv_wf(v0));
    let s = ws + jser_items_pretty(es, d) + close + seq![']'] + rest;
    let tail = if es.len() == 1 {
        close + seq![']'] + rest
    } else {
        seq![','] + nl_indent(d) + jser_items_pretty(es.drop_first(), d) + close + seq![']']
            + rest
    };
    if es.len() == 1 {
        assert(jser_items_pretty(es, d) == jser_pretty(v0, d));
    } else {
        assert(jser_items_pretty(es, d) == jser_pretty(v0, d) + seq![','] + nl_indent(d)
            + jser_items_pretty(es.drop_first(), d));
    }
    assert(s =~= ws + jser_pretty(v0, d) + tail);
    if es.len() == 1 {
        if close.len() > 0 {
            assert(is_ws(close[0]));
            assert(tail[0] == close[0]);
            assert(!num_char(tail[0]));
        } else {
            assert(tail[0] == ']');
        }
    } else {
        assert(tail[0] == ',');
    }
    lemma_item_pretty_rt(ws, v0, d, tail);
    let n0 = ws.len() + jser_pretty(v0, d).len();
    assert(jp_val(s) == Some((v0, n0 as int)));
    assert(s.len() > 0);
    assert(adv(s, n0 as int) =~= tail);
    // what follows the head value
    if es.len() == 1 {
        assert forall|m: int| 0 <= m < close.len() implies is_ws(#[trigger] tail[m]) by {
            assert(tail[m] == close[m]);
        }
        lemma_ws_arr_rest_skip(tail, close.len() as int);
        assert(tail.skip(close.len() as int) =~= seq![']'] + rest);
        assert(jp_arr_rest(seq![']'] + rest) == Some((Seq::<Jv>::empty(), 1int)));
        assert(jp_arr_rest(tail) == Some((Seq::<Jv>::empty(), close.len() + 1int)));
        assert(seq![v0] + Seq::<Jv>::empty() =~= es);
    } else {
        let es1 = es.drop_first();
        assert(jv_wf_seq(es1));
        assert(tail[0] == ',');
        assert(tail.drop_first() =~= nl_indent(d) + jser_items_pretty(es1, d) + close + seq![']']
            + rest);
        lemma_nl_indent_ws(d);
        lemma_items_pretty_rt(nl_indent(d), es1, d, close, rest);
        assert(jp_arr_rest(tail) == Some(
            (
                es1,
                1 + (nl_indent(d).len() + jser_items_pretty(es1, d).len() + close.len() + 1int),
            ),
        ));
        assert(seq![v0] + es1 =~= es);
    }
}

/// One pretty entry, preceded by whitespace, reads back as its key and
/// value.
#[verifier::rlimit(100)]
proof fn lemma_entry_pretty_rt(ws: Seq<char>, k: Seq<char>, v0: Jv, d: nat, tail: Seq<char>)
    requires
        jv_wf(v0),
        forall|i: int| 0 <= i < ws.len() ==> is_ws(#[trigger] ws[i]),
        tail.len() == 0 || !num_char(tail[0]),
    ensures
        jp_entry(ws + (jser_str(k) + seq![':', ' '] + jser_pretty(v0, d)) + tail) == Some(
            (
                (k, v0),
                ws.len() + (jser_str(k) + seq![':', ' '] + jser_pretty(v0, d)).len() as int,
            ),
        ),
    decreases v0, 1int,
{
    let entry_text = jser_str(k) + seq![':', ' '] + jser_pretty(v0, d);
    let s = ws + entry_text + tail;
    assert(s =~= ws + (entry_text + tail));
    assert forall|m: int| 0 <= m < ws.len() implies is_ws(#[trigger] s[m]) by {
        assert(s[m] == ws[m]);
    }
    lemma_ws_entry_skip(s, ws.len() as int);
    let s2 = entry_text + tail;
    assert(s.skip(ws.len() as int) =~= s2);
    assert(forall|i: int| 0 <= i < entry_text.len() ==> s2[i] == entry_text[i]);
    assert(jser_str(k)[0] == '"');
    assert(s2[0] == '"');
    let rest2 = seq![':', ' '] + jser_pretty(v0, d) + tail;
    assert(s2.drop_first() =~= esc_seq(k) + seq!['"'] + rest2);
    lemma_jp_str_of_esc(k, rest2);
    let kn = esc_seq(k).len() as int + 1;
    assert(s2.len() > 0);
    assert(adv(s2, 1 + kn) =~= rest2);
    assert(rest2[0] == ':');
    let rest3 = seq![' '] + jser_pretty(v0, d) + tail;
    assert(rest2.drop_first() =~= rest3);
    assert(is_ws(rest3[0]));
    lemma_ws_val_skip(rest3, 1);
    assert(rest3.skip(1) =~= jser_pretty(v0, d) + tail);
    lemma_jval_pretty(v0, d, tail);
    let vn = 2 + jser_pretty(v0, d).len() as int;
    assert(jp_entry_val(rest2) == Some((v0, vn)));
    assert(jp_entry(s2) == Some(((k, v0), 1 + kn + vn)));
    assert(entry_text.len() == 1 + kn + vn);
}

/// Entries preceded by whitespace and followed by a whitespace run and `}`
/// parse back to themselves.
#[verifier::rlimit(100)]
proof fn lemma_entries_pretty_rt(
    ws: Seq<char>,
    kvs: Seq<(Seq<char>, Jv)>,
    d: nat,
    close: Seq<char>,
    rest: Seq<char>,
)
    requires
        kvs.len() > 0,
        jv_wf_entries(kvs),
        forall|i: int| 0 <= i < ws.len() ==> is_ws(#[trigger] ws[i]),
        forall|i: int| 0 <= i < close.len() ==> is_ws(#[trigger] close[i]),
    ensures
        jp_obj_next(ws + jser_entries_pretty(kvs, d) + close + seq!['}'] + rest) == Some(
            (
                kvs,
                ws.len() + jser_entries_pretty(kvs, d).len() + close.len() + 1int,
            ),
        ),
    decreases kvs, 2int,
{
    let k = kvs[0].0;
    let v0 = kvs[0].1;
    assert(jv_wf(v0));
    assert(decreases_to!(kvs => kvs[0]));
    let s = ws + jser_entries_pretty(kvs, d) + close + seq!['}'] + rest;
    let entry_text = jser_str(k) + seq![':', ' '] + jser_pretty(v0, d);
    let tail = if kvs.len() == 1 {
        close + seq!['}'] + rest
    } else {
        seq![','] + nl_indent(d) + jser_entries_pretty(kvs.drop_first(), d) + close + seq!['}']
            + rest
    };
    if kvs.len() == 1 {
        assert(jser_entries_pretty(kvs, d) == entry_text);
    } else {
        assert(jser_entries_pretty(kvs, d) == entry_text + seq![','] + nl_indent(d)
            + jser_entries_pretty(kvs.drop_first(), d));
    }
    assert(s =~= ws + entry_text + tail);
    if kvs.len() == 1 {
        if close.len() > 0 {
            assert(is_ws(close[0]));
            assert(tail[0] == close[0]);
            assert(!num_char(tail[0]));
        } else {
            assert(tail[0] == '}');
        }
    } else {
        assert(tail[0] == ',');
    }
    lemma_entry_pretty_rt(ws, k, v0, d, tail);
    assert(jp_entry(s) == Some(((k, v0), ws.len() + entry_text.len() as int)));
    assert(s.len() > 0);
    assert(adv(s, ws.len() as int + entry_text.len() as int) =~= tail);
    // what follows the entry
    if kvs.len() == 1 {
        assert forall|m: int| 0 <= m < close.len() implies is_ws(#[trigger] tail[m]) by {
            assert(tail[m] == close[m]);
        }
        lemma_ws_obj_rest_skip(tail, close.len() as int);
        assert(tail.skip(close.len() as int) =~= seq!['}'] + rest);
        assert(jp_obj_rest(seq!['}'] + rest) == Some((Seq::<(Seq<char>, Jv)>::empty(), 1int)));
        assert(jp_obj_rest(tail) == Some((Seq::<(Seq<char>, Jv)>::empty(), close.len() + 1int)));
        assert(seq![(k, v0)] + Seq::<(Seq<char>, Jv)>::empty() =~= kvs);
    } else {
        let kvs1 = kvs.drop_first();
        assert(jv_wf_entries(kvs1));
        assert(tail[0] == ',');
        assert(tail.drop_first() =~= nl_indent(d) + jser_entries_pretty(kvs1, d) + close
            + seq!['}'] + rest);
        lemma_nl_indent_ws(d);
        lemma_entries_pretty_rt(nl_indent(d), kvs1, d, close, rest);
        assert(jp_obj_rest(tail) == Some(
            (
                kvs1,
                1 + (nl_indent(d).len() + jser_entries_pretty(kvs1, d).len() + close.len() + 1int),
            ),
        ));
        assert(seq![(k, v0)] + kvs1 =~= kvs);
    }
}

/// Parsing the pretty serialization of a well-formed value yields it back.
pub proof fn lemma_parse_of_jser_pretty(v: Jv)
    requires
        jv_wf(v),
    ensures
        jparse(jser_pretty(v, 0)) == Some(v),
{
    lemma_jval_pretty(v, 0, Seq::empty());
    assert(jser_pretty(v, 0) + Seq::<char>::empty() =~= jser_pretty(v, 0));
}


proof fn lemma_items_pretty_snoc(es: Seq<Jv>, e: Jv, d: nat)
    ensures
        es.len() == 0 ==> jser_items_pretty(es.push(e), d) == jser_pretty(e, d),
        es.len() > 0 ==> jser_items_pretty(es.push(e), d) == jser_items_pretty(es, d)
            + seq![','] + nl_indent(d) + jser_pretty(e, d),
    decreases es.len(),
{
    if es.len() == 0 {
        assert(es.push(e)[0] == e);
    } else {
        assert(es.push(e)[0] == es[0]);
        assert(es.push(e).drop_first() =~= es.drop_first().push(e));
        lemma_items_pretty_snoc(es.drop_first(), e, d);
        if es.len() == 1 {
            assert(jser_items_pretty(es.push(e), d) == jser_pretty(es[0], d) + seq![',']
                + nl_indent(d) + jser_items_pretty(es.drop_first().push(e), d));
            assert(jser_items_pretty(es, d) == jser_pretty(es[0], d));
        } else {
            assert(jser_pretty(es[0], d) + seq![','] + nl_indent(d) + (jser_items_pretty(
                es.drop_first(),
                d,
            ) + seq![','] + nl_indent(d) + jser_pretty(e, d)) =~= (jser_pretty(es[0], d)
                + seq![','] + nl_indent(d) + jser_items_pretty(es.drop_first(), d)) + seq![',']
                + nl_indent(d) + jser_pretty(e, d));
        }
    }
}

proof fn lemma_entries_pretty_snoc(kvs: Seq<(Seq<char>, Jv)>, k: Seq<char>, v: Jv, d: nat)
    ensures
        kvs.len() == 0 ==> jser_entries_pretty(kvs.push((k, v)), d) == jser_str(k)
            + seq![':', ' '] + jser_pretty(v, d),
        kvs.len() > 0 ==> jser_entries_pretty(kvs.push((k, v)), d) == jser_entries_pretty(kvs, d)
            + seq![','] + nl_indent(d) + jser_str(k) + seq![':', ' '] + jser_pretty(v, d),
    decreases kvs.len(),
{
    if kvs.len() == 0 {
        assert(kvs.push((k, v))[0] == (k, v));
    } else {
        assert(kvs.push((k, v))[0] == kvs[0]);
        assert(kvs.push((k, v)).drop_first() =~= kvs.drop_first().push((k, v)));
        lemma_entries_pretty_snoc(kvs.drop_first(), k, v, d);
        if kvs.len() == 1 {
            assert(jser_entries_pretty(kvs, d) == jser_str(kvs[0].0) + seq![':', ' ']
                + jser_pretty(kvs[0].1, d));
            assert(jser_str(kvs[0].0) + seq![':', ' '] + jser_pretty(kvs[0].1, d) + seq![',']
                + nl_indent(d) + (jser_str(k) + seq![':', ' '] + jser_pretty(v, d))
                =~= jser_entries_pretty(kvs, d) + seq![','] + nl_indent(d) + jser_str(k)
                + seq![':', ' '] + jser_pretty(v, d));
        } else {
            assert(jser_str(kvs[0].0) + seq![':', ' '] + jser_pretty(kvs[0].1, d) + seq![',']
                + nl_indent(d) + (jser_entries_pretty(kvs.drop_first(), d) + seq![',']
                + nl_indent(d) + jser_str(k) + seq![':', ' '] + jser_pretty(v, d)) =~= (jser_str(
                kvs[0].0,
            ) + seq![':', ' '] + jser_pretty(kvs[0].1, d) + seq![','] + nl_indent(d)
                + jser_entries_pretty(kvs.drop_first(), d)) + seq![','] + nl_indent(d) + jser_str(
                k,
            ) + seq![':', ' '] + jser_pretty(v, d));
        }
    }
}

/// Appends the characters of `cs` to `out`.
fn push_chars(out: &mut Vec<char>, cs: &Vec<char>)
    ensures
        final(out)@ == old(out)@ + cs@,
{
    let mut i: usize = 0;
    while i < cs.len()
        invariant
            i <= cs.len(),
            out@ == old(out)@ + cs@.take(i as int),
        decreases cs.len() - i,
    {
        out.push(cs[i]);
        proof {
            assert(cs@.take(i as int).push(cs@[i as int]) =~= cs@.take(i as int + 1));
            assert(old(out)@ + cs@.take(i as int) + seq![cs@[i as int]] =~= old(out)@ + cs@.take(
                i as int + 1,
            ));
        }
        i = i + 1;
    }
    proof {
        assert(cs@.take(cs.len() as int) =~= cs@);
    }
}

/// The indent one level deeper: two more spaces.
fn deeper_indent(ind: &Vec<char>) -> (r: Vec<char>)
    ensures
        r@ == ind@ + seq![' ', ' '],
{
    let mut r: Vec<char> = Vec::new();
    push_chars(&mut r, ind);
    r.push(' ');
    r.push(' ');
    proof {
        assert(r@ =~= ind@ + seq![' ', ' ']);
    }
    r
}

impl Json {
    /// Appends the pretty serialization of `self` at depth `depth` to
    /// `out`; `ind` must hold the line break and indentation for that
    /// depth.
    pub fn write_pretty(&self, depth: Ghost<nat>, ind: &Vec<char>, out: &mut Vec<char>)
        requires
            ind@ == nl_indent(depth@),
        ensures
            final(out)@ == old(out)@ + jser_pretty(self.deep_view(), depth@),
        decreases self,
    {
        match self {
            Json::Null => {
                push_str_chars(out, "null");
                proof {
                    reveal_strlit("null");
                    assert("null"@ =~= seq!['n', 'u', 'l', 'l']);
                }
            },
            Json::Bool(b) => {
                if *b {
                    push_str_chars(out, "true");
                    proof {
                        reveal_strlit("true");
                        assert("true"@ =~= seq!['t', 'r', 'u', 'e']);
                    }
                } else {
                    push_str_chars(out, "false");
                    proof {
                        reveal_strlit("false");
                        assert("false"@ =~= seq!['f', 'a', 'l', 's', 'e']);
                    }
                }
            },
            Json::Num(n) => {
                push_str_chars(out, n.text.as_str());
            },
            Json::Str(t) => {
                push_json_string(out, t.as_str());
            },
            Json::Arr(a) => {
                let ghost vs = self.deep_view()->Arr_0;
                out.push('[');
                if a.len() == 0 {
                    out.push(']');
                    proof {
                        assert(out@ =~= old(out)@ + jser_pretty(self.deep_view(), depth@));
                    }
                    return ;
                }
                let ind2 = deeper_indent(ind);
                proof {
                    assert(ind2@ == nl_indent((depth@ + 1) as nat));
                }
                let ghost d1 = (depth@ + 1) as nat;
                let mut i: usize = 0;
                while i < a.len()
                    invariant
                        i <= a.len(),
                        self.deep_view() == Jv::Arr(vs),
                        self is Arr && a == self->Arr_0,
                        vs.len() == a@.len(),
                        forall|k: int| 0 <= k < vs.len() ==> vs[k] == #[trigger] a@[k].deep_view(),
                        ind2@ == nl_indent(d1),
                        ind@ == nl_indent(depth@),
                        d1 == depth@ + 1,
                        i == 0 ==> out@ == old(out)@ + seq!['['],
                        i > 0 ==> out@ == old(out)@ + seq!['['] + nl_indent(d1)
                            + jser_items_pretty(vs.take(i as int), d1),
                    decreases a.len() - i,
                {
                    if i > 0 {
                        out.push(',');
                    }
                    push_chars(out, &ind2);
                    let e = &a[i];
                    e.write_pretty(Ghost(d1), &ind2, out);
                    proof {
                        lemma_items_pretty_snoc(vs.take(i as int), vs[i as int], d1);
                        assert(vs.take(i as int).push(vs[i as int]) =~= vs.take(i as int + 1));
                        assert(out@ =~= old(out)@ + seq!['['] + nl_indent(d1) + jser_items_pretty(
                            vs.take(i as int + 1),
                            d1,
                        ));
                    }
                    i = i + 1;
                }
                push_chars(out, ind);
                out.push(']');
                proof {
                    assert(vs.take(a@.len() as int) =~= vs);
                    assert(out@ =~= old(out)@ + jser_pretty(self.deep_view(), depth@));
                }
            },
            Json::Obj(o) => {
                let ghost kvs = self.deep_view()->Obj_0;
                out.push('{');
                if o.len() == 0 {
                    out.push('}');
                    proof {
                        assert(out@ =~= old(out)@ + jser_pretty(self.deep_view(), depth@));
                    }
                    return ;
                }
                let ind2 = deeper_indent(ind);
                proof {
                    assert(ind2@ == nl_indent((depth@ + 1) as nat));
                }
                let ghost d1 = (depth@ + 1) as nat;
                let mut i: usize = 0;
                while i < o.len()
                    invariant
                        i <= o.len(),
                        self.deep_view() == Jv::Obj(kvs),
                        self is Obj && o == self->Obj_0,
                        kvs.len() == o@.len(),
                        forall|k: int| 0 <= k < kvs.len() ==> kvs[k] == #[trigger] entry_view(
                            o@[k],
                        ),
                        ind2@ == nl_indent(d1),
                        ind@ == nl_indent(depth@),
                        d1 == depth@ + 1,
                        i == 0 ==> out@ == old(out)@ + seq!['{'],
                        i > 0 ==> out@ == old(out)@ + seq!['{'] + nl_indent(d1)
                            + jser_entries_pretty(kvs.take(i as int), d1),
                    decreases o.len() - i,
                {
                    if i > 0 {
                        out.push(',');
                    }
                    push_chars(out, &ind2);
                    let pair = &o[i];
                    push_json_string(out, pair.0.as_str());
                    out.push(':');
                    out.push(' ');
                    let val = &pair.1;
                    val.write_pretty(Ghost(d1), &ind2, out);
                    proof {
                        assert(kvs[i as int] == entry_view(o@[i as int]));
                        assert(kvs[i as int].0 == pair.0@ && kvs[i as int].1 == pair.1.deep_view());
                        lemma_entries_pretty_snoc(
                            kvs.take(i as int),
                            kvs[i as int].0,
                            kvs[i as int].1,
                            d1,
                        );
                        assert(kvs.take(i as int).push(kvs[i as int]) =~= kvs.take(i as int + 1));
                        assert(out@ =~= old(out)@ + seq!['{'] + nl_indent(d1)
                            + jser_entries_pretty(kvs.take(i as int + 1), d1));
                    }
                    i = i + 1;
                }
                push_chars(out, ind);
                out.push('}');
                proof {
                    assert(kvs.take(o@.len() as int) =~= kvs);
                    assert(out@ =~= old(out)@ + jser_pretty(self.deep_view(), depth@));
                }
            },
        }
    }

    /// The pretty serialization of `self` as a string: one entry or item
    /// per line, two spaces of indentation per level.
    pub fn to_pretty_text(&self) -> (r: String)
        ensures
            r@ == jser_pretty(self.deep_view(), 0),
    {
        let mut ind: Vec<char> = Vec::new();
        ind.push('\n');
        proof {
            assert(ind@ =~= nl_indent(0));
        }
        let mut out: Vec<char> = Vec::new();
        self.write_pretty(Ghost(0 as nat), &ind, &mut out);
        chars_into_string(&out)
    }
}

} // verus!
