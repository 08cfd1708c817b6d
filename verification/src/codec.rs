use vstd::prelude::*;
use crate::task::TaskView;
use crate::text::{is_digit, digit_val, digits_to_nat, dec_digits};

verus! {

// ---------------------------------------------------------------------------
// The stored format.
//
// A store is kept on disk as a JSON array of objects, one per task, each
// with the fields `id` (a decimal number), `title` (a string) and
// `completed` (a boolean), in that order.  The writer emits the array in
// one line without spaces; the reader also accepts whitespace between
// tokens, so files written with an indented layout load as well.
// ---------------------------------------------------------------------------

pub open spec fn key_id() -> Seq<char> {
    seq!['"', 'i', 'd', '"']
}

pub open spec fn key_title() -> Seq<char> {
    seq!['"', 't', 'i', 't', 'l', 'e', '"']
}

pub open spec fn key_completed() -> Seq<char> {
    seq!['"', 'c', 'o', 'm', 'p', 'l', 'e', 't', 'e', 'd', '"']
}

pub open spec fn lit_true() -> Seq<char> {
    seq!['t', 'r', 'u', 'e']
}

pub open spec fn lit_false() -> Seq<char> {
    seq!['f', 'a', 'l', 's', 'e']
}

/// The hexadecimal digit character for a value below sixteen, lower case.
pub open spec fn hex_digit(d: int) -> char {
    if d == 0 { '0' } else if d == 1 { '1' } else if d == 2 { '2' } else if d == 3 { '3' }
    else if d == 4 { '4' } else if d == 5 { '5' } else if d == 6 { '6' } else if d == 7 { '7' }
    else if d == 8 { '8' } else if d == 9 { '9' } else if d == 10 { 'a' } else if d == 11 { 'b' }
    else if d == 12 { 'c' } else if d == 13 { 'd' } else if d == 14 { 'e' } else { 'f' }
}

pub open spec fn is_hex(c: char) -> bool {
    ||| is_digit(c)
    ||| 'a' as u32 <= c as u32 <= 'f' as u32
    ||| 'A' as u32 <= c as u32 <= 'F' as u32
}

/// The numeric value of a hexadecimal digit character.
pub open spec fn hex_val(c: char) -> int {
    if is_digit(c) {
        digit_val(c) as int
    } else if 'a' as u32 <= c as u32 <= 'f' as u32 {
        c as u32 - 'a' as u32 + 10
    } else {
        c as u32 - 'A' as u32 + 10
    }
}

/// How one character of a title is written inside a JSON string: itself,
/// a two-character escape, or a `\u00..` escape for other control
/// characters.
pub open spec fn esc_char(c: char) -> Seq<char> {
    if c == '"' {
        seq!['\\', '"']
    } else if c == '\\' {
        seq!['\\', '\\']
    } else if c == '\n' {
        seq!['\\', 'n']
    } else if c == '\r' {
        seq!['\\', 'r']
    } else if c == '\t' {
        seq!['\\', 't']
    } else if c == '\u{8}' {
        seq!['\\', 'b']
    } else if c == '\u{c}' {
        seq!['\\', 'f']
    } else if (c as u32) < 0x20 {
        seq!['\\', 'u', '0', '0', hex_digit(c as u32 as int / 16), hex_digit(c as u32 as int % 16)]
    } else {
        seq![c]
    }
}

/// A title with each character written in its stored form.
pub open spec fn esc_string(t: Seq<char>) -> Seq<char>
    decreases t.len(),
{
    if t.len() == 0 {
        Seq::empty()
    } else {
        esc_char(t[0]) + esc_string(t.drop_first())
    }
}

/// A title as a JSON string, quotes included.
pub open spec fn ser_string(t: Seq<char>) -> Seq<char> {
    seq!['"'] + esc_string(t) + seq!['"']
}

pub open spec fn ser_bool(b: bool) -> Seq<char> {
    if b {
        lit_true()
    } else {
        lit_false()
    }
}

/// The `id` field of a task object: its key, a colon, the number.
pub open spec fn ser_id_field(id: u32) -> Seq<char> {
    key_id() + seq![':'] + dec_digits(id)
}

/// The `title` field of a task object: its key, a colon, the string.
pub open spec fn ser_title_field(title: Seq<char>) -> Seq<char> {
    key_title() + seq![':'] + ser_string(title)
}

/// The `completed` field of a task object: its key, a colon, the flag.
pub open spec fn ser_completed_field(b: bool) -> Seq<char> {
    key_completed() + seq![':'] + ser_bool(b)
}

/// One task as a JSON object.
pub open spec fn ser_task(t: TaskView) -> Seq<char> {
    seq!['{'] + ser_id_field(t.id) + seq![','] + ser_title_field(t.title) + seq![',']
        + ser_completed_field(t.completed) + seq!['}']
}

/// The tail of the array after its first task: for each further task a
/// comma and the task, then the closing bracket.
pub open spec fn ser_rest(ts: Seq<TaskView>) -> Seq<char>
    decreases ts.len(),
{
    if ts.len() == 0 {
        seq![']']
    } else {
        seq![','] + ser_task(ts[0]) + ser_rest(ts.drop_first())
    }
}

/// A whole store as a JSON array.
pub open spec fn ser_store(ts: Seq<TaskView>) -> Seq<char> {
    if ts.len() == 0 {
        seq!['[', ']']
    } else {
        seq!['['] + ser_task(ts[0]) + ser_rest(ts.drop_first())
    }
}

// ---------------------------------------------------------------------------
// The parser, as spec functions.  Each one reads a prefix of the input
// and returns what it read together with the unread remainder, or `None`
// where the input does not match the format.
// ---------------------------------------------------------------------------

pub open spec fn is_ws(c: char) -> bool {
    c == ' ' || c == '\n' || c == '\t' || c == '\r'
}

/// The input without its leading whitespace.
pub open spec fn skip_ws(s: Seq<char>) -> Seq<char>
    decreases s.len(),
{
    if s.len() > 0 && is_ws(s[0]) {
        skip_ws(s.drop_first())
    } else {
        s
    }
}

/// After leading whitespace the input must continue with the given token;
/// what follows the token is returned.
pub open spec fn expect_tok(s: Seq<char>, tok: Seq<char>) -> Option<Seq<char>> {
    let t = skip_ws(s);
    if tok.len() <= t.len() && t.take(tok.len() as int) == tok {
        Some(t.skip(tok.len() as int))
    } else {
        None
    }
}

/// The longest digit prefix of the input, and the remainder.
pub open spec fn take_digits(s: Seq<char>) -> (Seq<char>, Seq<char>)
    decreases s.len(),
{
    if s.len() > 0 && is_digit(s[0]) {
        let p = take_digits(s.drop_first());
        (seq![s[0]] + p.0, p.1)
    } else {
        (Seq::empty(), s)
    }
}

/// A decimal number after optional whitespace; it must have at least one
/// digit and fit in a `u32`.
pub open spec fn parse_u32_tok(s: Seq<char>) -> Option<(u32, Seq<char>)> {
    let t = skip_ws(s);
    let p = take_digits(t);
    if p.0.len() == 0 || digits_to_nat(p.0) > u32::MAX {
        None
    } else {
        Some((digits_to_nat(p.0) as u32, p.1))
    }
}

/// The character a two-character escape stands for.
pub open spec fn unescape(c: char) -> Option<char> {
    if c == '"' {
        Some('"')
    } else if c == '\\' {
        Some('\\')
    } else if c == '/' {
        Some('/')
    } else if c == 'n' {
        Some('\n')
    } else if c == 'r' {
        Some('\r')
    } else if c == 't' {
        Some('\t')
    } else if c == 'b' {
        Some('\u{8}')
    } else if c == 'f' {
        Some('\u{c}')
    } else {
        None
    }
}

/// The inside of a JSON string, read up to and over the closing quote.
/// Unescaped control characters are refused; `\u` escapes are read for
/// codes below 128, which covers every one the writer emits.
pub open spec fn parse_string_body(s: Seq<char>) -> Option<(Seq<char>, Seq<char>)>
    decreases s.len(),
{
    if s.len() == 0 {
        None
    } else if s[0] == '"' {
        Some((Seq::empty(), s.drop_first()))
    } else if s[0] == '\\' {
        if s.len() < 2 {
            None
        } else if s[1] == 'u' {
            if s.len() >= 6 && is_hex(s[2]) && is_hex(s[3]) && is_hex(s[4]) && is_hex(s[5]) {
                let code = ((hex_val(s[2]) * 16 + hex_val(s[3])) * 16 + hex_val(s[4])) * 16
                    + hex_val(s[5]);
                if 0 <= code < 0x80 {
                    match parse_string_body(s.skip(6)) {
                        None => None,
                        Some(p) => Some((seq![code as char] + p.0, p.1)),
                    }
                } else {
                    None
                }
            } else {
                None
            }
        } else {
            match unescape(s[1]) {
                None => None,
                Some(c) => match parse_string_body(s.skip(2)) {
                    None => None,
                    Some(p) => Some((seq![c] + p.0, p.1)),
                },
            }
        }
    } else if (s[0] as u32) < 0x20 {
        None
    } else {
        match parse_string_body(s.drop_first()) {
            None => None,
            Some(p) => Some((seq![s[0]] + p.0, p.1)),
        }
    }
}

/// `true` or `false` after optional whitespace.
pub open spec fn parse_bool_tok(s: Seq<char>) -> Option<(bool, Seq<char>)> {
    match expect_tok(s, lit_true()) {
        Some(r) => Some((true, r)),
        None => match expect_tok(s, lit_false()) {
            Some(r) => Some((false, r)),
            None => None,
        },
    }
}

/// The `id` field: its key, a colon, a number.
pub open spec fn parse_id_field(s: Seq<char>) -> Option<(u32, Seq<char>)> {
    match expect_tok(s, key_id()) {
        None => None,
        Some(s1) => match expect_tok(s1, seq![':']) {
            None => None,
            Some(s2) => parse_u32_tok(s2),
        },
    }
}

/// The `title` field: its key, a colon, a string.
pub open spec fn parse_title_field(s: Seq<char>) -> Option<(Seq<char>, Seq<char>)> {
    match expect_tok(s, key_title()) {
        None => None,
        Some(s1) => match expect_tok(s1, seq![':']) {
            None => None,
            Some(s2) => match expect_tok(s2, seq!['"']) {
                None => None,
                Some(s3) => parse_string_body(s3),
            },
        },
    }
}

/// The `completed` field: its key, a colon, a boolean.
pub open spec fn parse_completed_field(s: Seq<char>) -> Option<(bool, Seq<char>)> {
    match expect_tok(s, key_completed()) {
        None => None,
        Some(s1) => match expect_tok(s1, seq![':']) {
            None => None,
            Some(s2) => parse_bool_tok(s2),
        },
    }
}

/// One task object, fields in stored order.
pub open spec fn parse_task(s: Seq<char>) -> Option<(TaskView, Seq<char>)> {
    match expect_tok(s, seq!['{']) {
        None => None,
        Some(s1) => match parse_id_field(s1) {
            None => None,
            Some(p_id) => match expect_tok(p_id.1, seq![',']) {
                None => None,
                Some(s2) => match parse_title_field(s2) {
                    None => None,
                    Some(p_t) => match expect_tok(p_t.1, seq![',']) {
                        None => None,
                        Some(s3) => match parse_completed_field(s3) {
                            None => None,
                            Some(p_b) => match expect_tok(p_b.1, seq!['}']) {
                                None => None,
                                Some(s4) => Some(
                                    (
                                        (TaskView {
                                            id: p_id.0,
                                            title: p_t.0,
                                            completed: p_b.0,
                                        }),
                                        s4,
                                    ),
                                ),
                            },
                        },
                    },
                },
            },
        },
    }
}

/// The array after its first task: either the closing bracket, or a comma
/// and another task, repeated.
pub open spec fn parse_list_rest(s: Seq<char>) -> Option<(Seq<TaskView>, Seq<char>)>
    decreases s.len(),
    via parse_list_rest_decreases
{
    let t = skip_ws(s);
    if t.len() == 0 {
        None
    } else if t[0] == ']' {
        Some((Seq::empty(), t.drop_first()))
    } else if t[0] == ',' {
        match parse_task(t.drop_first()) {
            None => None,
            Some(p) => match parse_list_rest(p.1) {
                None => None,
                Some(q) => Some((seq![p.0] + q.0, q.1)),
            },
        }
    } else {
        None
    }
}

#[via_fn]
proof fn parse_list_rest_decreases(s: Seq<char>) {
    lemma_skip_ws_len(s);
    let t = skip_ws(s);
    if t.len() > 0 && t[0] != ']' && t[0] == ',' {
        if parse_task(t.drop_first()) is Some {
            lemma_parse_task_len(t.drop_first());
        }
    }
}

/// A whole array: the opening bracket, then either the closing bracket or
/// the first task and the tail of the array.
pub open spec fn parse_store(s: Seq<char>) -> Option<(Seq<TaskView>, Seq<char>)> {
    match expect_tok(s, seq!['[']) {
        None => None,
        Some(s1) => {
            let t = skip_ws(s1);
            if t.len() > 0 && t[0] == ']' {
                Some((Seq::empty(), t.drop_first()))
            } else {
                match parse_task(t) {
                    None => None,
                    Some(p) => match parse_list_rest(p.1) {
                        None => None,
                        Some(q) => Some((seq![p.0] + q.0, q.1)),
                    },
                }
            }
        },
    }
}

/// What a whole file holds: the array, with nothing but whitespace after
/// it.  `None` stands for a file that does not parse.
pub open spec fn tasks_of(s: Seq<char>) -> Option<Seq<TaskView>> {
    match parse_store(s) {
        None => None,
        Some(p) => if skip_ws(p.1).len() == 0 {
            Some(p.0)
        } else {
            None
        },
    }
}

// ---------------------------------------------------------------------------
// Every parsing step reads only a prefix: the remainder never grows.
// ---------------------------------------------------------------------------

pub proof fn lemma_skip_ws_len(s: Seq<char>)
    ensures
        skip_ws(s).len() <= s.len(),
    decreases s.len(),
{
    if s.len() > 0 && is_ws(s[0]) {
        lemma_skip_ws_len(s.drop_first());
    }
}

pub proof fn lemma_expect_tok_len(s: Seq<char>, tok: Seq<char>)
    ensures
        expect_tok(s, tok) is Some ==> expect_tok(s, tok).unwrap().len() + tok.len() <= s.len(),
{
    lemma_skip_ws_len(s);
}

pub proof fn lemma_take_digits_len(s: Seq<char>)
    ensures
        take_digits(s).0.len() + take_digits(s).1.len() == s.len(),
    decreases s.len(),
{
    if s.len() > 0 && is_digit(s[0]) {
        lemma_take_digits_len(s.drop_first());
    }
}

pub proof fn lemma_parse_u32_tok_len(s: Seq<char>)
    ensures
        parse_u32_tok(s) is Some ==> parse_u32_tok(s).unwrap().1.len() < s.len(),
{
    lemma_skip_ws_len(s);
    lemma_take_digits_len(skip_ws(s));
}

pub proof fn lemma_parse_string_body_len(s: Seq<char>)
    ensures
        parse_string_body(s) is Some ==> parse_string_body(s).unwrap().1.len() < s.len(),
    decreases s.len(),
{
    if s.len() == 0 {
    } else if s[0] == '"' {
    } else if s[0] == '\\' {
        if s.len() >= 2 && s[1] == 'u' {
            if s.len() >= 6 {
                lemma_parse_string_body_len(s.skip(6));
            }
        } else if s.len() >= 2 {
            lemma_parse_string_body_len(s.skip(2));
        }
    } else {
        lemma_parse_string_body_len(s.drop_first());
    }
}

pub proof fn lemma_parse_bool_tok_len(s: Seq<char>)
    ensures
        parse_bool_tok(s) is Some ==> parse_bool_tok(s).unwrap().1.len() < s.len(),
{
    lemma_expect_tok_len(s, lit_true());
    lemma_expect_tok_len(s, lit_false());
}

pub proof fn lemma_parse_id_field_len(s: Seq<char>)
    ensures
        parse_id_field(s) is Some ==> parse_id_field(s).unwrap().1.len() < s.len(),
{
    lemma_expect_tok_len(s, key_id());
    if let Some(s1) = expect_tok(s, key_id()) {
        lemma_expect_tok_len(s1, seq![':']);
        if let Some(s2) = expect_tok(s1, seq![':']) {
            lemma_parse_u32_tok_len(s2);
        }
    }
}

pub proof fn lemma_parse_title_field_len(s: Seq<char>)
    ensures
        parse_title_field(s) is Some ==> parse_title_field(s).unwrap().1.len() < s.len(),
{
    lemma_expect_tok_len(s, key_title());
    if let Some(s1) = expect_tok(s, key_title()) {
        lemma_expect_tok_len(s1, seq![':']);
        if let Some(s2) = expect_tok(s1, seq![':']) {
            lemma_expect_tok_len(s2, seq!['"']);
            if let Some(s3) = expect_tok(s2, seq!['"']) {
                lemma_parse_string_body_len(s3);
            }
        }
    }
}

pub proof fn lemma_parse_completed_field_len(s: Seq<char>)
    ensures
        parse_completed_field(s) is Some ==> parse_completed_field(s).unwrap().1.len() < s.len(),
{
    lemma_expect_tok_len(s, key_completed());
    if let Some(s1) = expect_tok(s, key_completed()) {
        lemma_expect_tok_len(s1, seq![':']);
        if let Some(s2) = expect_tok(s1, seq![':']) {
            lemma_parse_bool_tok_len(s2);
        }
    }
}

pub proof fn lemma_parse_task_len(s: Seq<char>)
    ensures
        parse_task(s) is Some ==> parse_task(s).unwrap().1.len() < s.len(),
{
    lemma_expect_tok_len(s, seq!['{']);
    if let Some(s1) = expect_tok(s, seq!['{']) {
        lemma_parse_id_field_len(s1);
        if let Some(p_id) = parse_id_field(s1) {
            lemma_expect_tok_len(p_id.1, seq![',']);
            if let Some(s2) = expect_tok(p_id.1, seq![',']) {
                lemma_parse_title_field_len(s2);
                if let Some(p_t) = parse_title_field(s2) {
                    lemma_expect_tok_len(p_t.1, seq![',']);
                    if let Some(s3) = expect_tok(p_t.1, seq![',']) {
                        lemma_parse_completed_field_len(s3);
                        if let Some(p_b) = parse_completed_field(s3) {
                            lemma_expect_tok_len(p_b.1, seq!['}']);
                        }
                    }
                }
            }
        }
    }
}

/// Where the first `n` characters are digits and the next one (if any)
/// is not, the digit prefix is exactly those `n` characters.
pub proof fn lemma_take_digits_span(s: Seq<char>, n: int)
    requires
        0 <= n <= s.len(),
        forall|m: int| 0 <= m < n ==> is_digit(#[trigger] s[m]),
        n == s.len() || !is_digit(s[n]),
    ensures
        take_digits(s).0 == s.take(n),
        take_digits(s).1 == s.skip(n),
    decreases n,
{
    if n == 0 {
        assert(s.take(0) =~= Seq::<char>::empty());
        assert(s.skip(0) =~= s);
    } else {
        assert(is_digit(s[0]));
        lemma_take_digits_span(s.drop_first(), n - 1);
        assert(s.drop_first().take(n - 1) =~= s.take(n).drop_first());
        assert(take_digits(s).0 == seq![s[0]] + s.drop_first().take(n - 1));
        assert(seq![s[0]] + s.take(n).drop_first() =~= s.take(n));
        assert(s.drop_first().skip(n - 1) =~= s.skip(n));
    }
}

/// Writing one more character extends the written title at its end.
pub proof fn lemma_esc_string_push(t: Seq<char>, c: char)
    ensures
        esc_string(t.push(c)) == esc_string(t) + esc_char(c),
    decreases t.len(),
{
    if t.len() == 0 {
        assert(t.push(c) =~= seq![c]);
        assert(seq![c].drop_first() =~= Seq::<char>::empty());
        assert(esc_string(seq![c]) == esc_char(c) + esc_string(Seq::<char>::empty()));
        assert(esc_char(c) + Seq::<char>::empty() =~= esc_char(c));
        assert(Seq::<char>::empty() + esc_char(c) =~= esc_char(c));
    } else {
        assert(t.push(c).drop_first() =~= t.drop_first().push(c));
        lemma_esc_string_push(t.drop_first(), c);
        assert(t.push(c)[0] == t[0]);
        assert(esc_string(t.push(c)) == esc_char(t[0]) + (esc_string(t.drop_first()) + esc_char(c)));
        assert(esc_char(t[0]) + (esc_string(t.drop_first()) + esc_char(c)) =~= (esc_char(t[0])
            + esc_string(t.drop_first())) + esc_char(c));
    }
}

// ---------------------------------------------------------------------------
// Round trip: the parser reads back exactly what the writer emits.
// ---------------------------------------------------------------------------

/// A token that does not open with whitespace is read off unchanged.
proof fn lemma_expect_tok_exact(tok: Seq<char>, rest: Seq<char>)
    requires
        tok.len() > 0,
        !is_ws(tok[0]),
    ensures
        expect_tok(tok + rest, tok) == Some(rest),
{
    let s = tok + rest;
    assert(s[0] == tok[0]);
    assert(skip_ws(s) == s);
    assert(s.take(tok.len() as int) =~= tok);
    assert(s.skip(tok.len() as int) =~= rest);
}

proof fn lemma_take_digits_exact(ds: Seq<char>, rest: Seq<char>)
    requires
        forall|k: int| 0 <= k < ds.len() ==> is_digit(#[trigger] ds[k]),
        rest.len() > 0 ==> !is_digit(rest[0]),
    ensures
        take_digits(ds + rest).0 == ds,
        take_digits(ds + rest).1 == rest,
    decreases ds.len(),
{
    let s = ds + rest;
    if ds.len() == 0 {
        assert(s =~= rest);
    } else {
        assert(s[0] == ds[0]);
        assert(s.drop_first() =~= ds.drop_first() + rest);
        lemma_take_digits_exact(ds.drop_first(), rest);
        assert(take_digits(s).0 =~= ds);
    }
}

proof fn lemma_parse_u32_exact(v: u32, rest: Seq<char>)
    requires
        rest.len() > 0 ==> !is_digit(rest[0]),
    ensures
        parse_u32_tok(dec_digits(v) + rest) == Some((v, rest)),
{
    crate::text::lemma_dec_digits_shape(v);
    let s = dec_digits(v) + rest;
    assert(s[0] == dec_digits(v)[0]);
    assert(!is_ws(s[0]));
    assert(skip_ws(s) == s);
    lemma_take_digits_exact(dec_digits(v), rest);
    crate::text::lemma_digits_value(v);
}

/// Reading the written form of a title, up to and over the closing quote,
/// yields the title.
proof fn lemma_parse_esc_string(t: Seq<char>, rest: Seq<char>)
    ensures
        parse_string_body(esc_string(t) + seq!['"'] + rest) == Some((t, rest)),
    decreases t.len(),
{
    if t.len() == 0 {
        let s = esc_string(t) + seq!['"'] + rest;
        assert(s =~= seq!['"'] + rest);
        assert(s[0] == '"');
        assert(s.drop_first() =~= rest);
    } else {
        let c = t[0];
        let e = esc_char(c);
        let tail = esc_string(t.drop_first()) + seq!['"'] + rest;
        let s = esc_string(t) + seq!['"'] + rest;
        assert(s =~= e + tail);
        lemma_parse_esc_string(t.drop_first(), rest);
        if c == '"' || c == '\\' || c == '\n' || c == '\r' || c == '\t' || c == '\u{8}' || c
            == '\u{c}' {
            assert(e.len() == 2 && e[0] == '\\');
            assert(s[0] == '\\' && s[1] == e[1]);
            assert(s[1] != 'u');
            assert(unescape(e[1]) == Some(c));
            assert(s.skip(2) =~= tail);
            assert(parse_string_body(s) == Some((seq![c] + t.drop_first(), rest)));
            assert(seq![c] + t.drop_first() =~= t);
        } else if (c as u32) < 0x20 {
            let hi = c as u32 as int / 16;
            let lo = c as u32 as int % 16;
            assert(e =~= seq!['\\', 'u', '0', '0', hex_digit(hi), hex_digit(lo)]);
            assert(s[0] == '\\' && s[1] == 'u');
            assert(s[2] == '0' && s[3] == '0' && s[4] == hex_digit(hi) && s[5] == hex_digit(lo));
            assert(0 <= hi < 16 && 0 <= lo < 16);
            assert(is_hex(hex_digit(hi)) && hex_val(hex_digit(hi)) == hi);
            assert(is_hex(hex_digit(lo)) && hex_val(hex_digit(lo)) == lo);
            assert(is_hex('0') && hex_val('0') == 0);
            let code = ((hex_val(s[2]) * 16 + hex_val(s[3])) * 16 + hex_val(s[4])) * 16 + hex_val(
                s[5],
            );
            assert(code == hi * 16 + lo);
            assert(code == c as u32);
            assert(code as char == c) by {
                vstd::utf8::char_u32_cast(c, c as u32);
            }
            assert(s.skip(6) =~= tail);
            assert(parse_string_body(s) == Some((seq![c] + t.drop_first(), rest)));
            assert(seq![c] + t.drop_first() =~= t);
        } else {
            assert(e =~= seq![c]);
            assert(s[0] == c);
            assert(c != '"' && c != '\\' && c as u32 >= 0x20);
            assert(s.drop_first() =~= tail);
            assert(parse_string_body(s) == Some((seq![c] + t.drop_first(), rest)));
            assert(seq![c] + t.drop_first() =~= t);
        }
    }
}

proof fn lemma_parse_bool_exact(b: bool, rest: Seq<char>)
    ensures
        parse_bool_tok(ser_bool(b) + rest) == Some((b, rest)),
{
    if b {
        lemma_expect_tok_exact(lit_true(), rest);
    } else {
        let s = lit_false() + rest;
        assert(s[0] == 'f');
        assert(skip_ws(s) == s);
        if expect_tok(s, lit_true()) is Some {
            assert(s.take(4)[0] == 'f');
            assert(false);
        }
        lemma_expect_tok_exact(lit_false(), rest);
    }
}

proof fn lemma_parse_id_field_exact(id: u32, rest: Seq<char>)
    requires
        rest.len() > 0 ==> !is_digit(rest[0]),
    ensures
        parse_id_field(ser_id_field(id) + rest) == Some((id, rest)),
{
    let s = ser_id_field(id) + rest;
    let r2 = dec_digits(id) + rest;
    let r1 = seq![':'] + r2;
    assert(s =~= key_id() + r1);
    lemma_expect_tok_exact(key_id(), r1);
    assert(expect_tok(s, key_id()) == Some(r1));
    lemma_expect_tok_exact(seq![':'], r2);
    lemma_parse_u32_exact(id, rest);
}

proof fn lemma_parse_title_field_exact(title: Seq<char>, rest: Seq<char>)
    ensures
        parse_title_field(ser_title_field(title) + rest) == Some((title, rest)),
{
    let s = ser_title_field(title) + rest;
    let body = esc_string(title) + (seq!['"'] + rest);
    let r2 = seq!['"'] + body;
    let r1 = seq![':'] + r2;
    assert(s =~= key_title() + r1);
    lemma_expect_tok_exact(key_title(), r1);
    assert(expect_tok(s, key_title()) == Some(r1));
    lemma_expect_tok_exact(seq![':'], r2);
    lemma_expect_tok_exact(seq!['"'], body);
    assert(body =~= esc_string(title) + seq!['"'] + rest);
    lemma_parse_esc_string(title, rest);
    assert(parse_string_body(body) == Some((title, rest)));
}

proof fn lemma_parse_completed_field_exact(b: bool, rest: Seq<char>)
    ensures
        parse_completed_field(ser_completed_field(b) + rest) == Some((b, rest)),
{
    let s = ser_completed_field(b) + rest;
    let r2 = ser_bool(b) + rest;
    let r1 = seq![':'] + r2;
    assert(s =~= key_completed() + r1);
    lemma_expect_tok_exact(key_completed(), r1);
    assert(expect_tok(s, key_completed()) == Some(r1));
    lemma_expect_tok_exact(seq![':'], r2);
    lemma_parse_bool_exact(b, rest);
}

/// Reading the written form of a task, followed by anything, yields the
/// task and leaves exactly that remainder.
#[verifier::rlimit(60)]
proof fn lemma_parse_task_exact(t: TaskView, rest: Seq<char>)
    ensures
        parse_task(ser_task(t) + rest) == Some((t, rest)),
{
    let s = ser_task(t) + rest;
    let r4: Seq<char> = seq!['}'] + rest;
    let r3 = ser_completed_field(t.completed) + r4;
    let r2 = seq![','] + r3;
    let r1b = ser_title_field(t.title) + r2;
    let r1a = seq![','] + r1b;
    let r1 = ser_id_field(t.id) + r1a;
    assert(s =~= seq!['{'] + r1);
    lemma_expect_tok_exact(seq!['{'], r1);
    assert(expect_tok(s, seq!['{']) == Some(r1));
    assert(r1a[0] == ',' && !is_digit(','));
    lemma_parse_id_field_exact(t.id, r1a);
    assert(parse_id_field(r1) == Some((t.id, r1a)));
    lemma_expect_tok_exact(seq![','], r1b);
    lemma_parse_title_field_exact(t.title, r2);
    assert(parse_title_field(r1b) == Some((t.title, r2)));
    lemma_expect_tok_exact(seq![','], r3);
    lemma_parse_completed_field_exact(t.completed, r4);
    assert(parse_completed_field(r3) == Some((t.completed, r4)));
    lemma_expect_tok_exact(seq!['}'], rest);
    assert(parse_task(s) == Some(
        ((TaskView { id: t.id, title: t.title, completed: t.completed }), rest),
    ));
    assert((TaskView { id: t.id, title: t.title, completed: t.completed }) == t);
}

#[verifier::rlimit(60)]
proof fn lemma_parse_list_rest_exact(ts: Seq<TaskView>, rest: Seq<char>)
    ensures
        parse_list_rest(ser_rest(ts) + rest) == Some((ts, rest)),
    decreases ts.len(),
{
    let s = ser_rest(ts) + rest;
    if ts.len() == 0 {
        assert(s =~= seq![']'] + rest);
        assert(s[0] == ']');
        assert(skip_ws(s) == s);
        assert(s.drop_first() =~= rest);
        assert(parse_list_rest(s) == Some((Seq::<TaskView>::empty(), rest)));
    } else {
        let inner = ser_task(ts[0]) + (ser_rest(ts.drop_first()) + rest);
        assert(s =~= seq![','] + inner);
        assert(s[0] == ',');
        assert(skip_ws(s) == s);
        assert(s.drop_first() =~= inner);
        lemma_parse_task_exact(ts[0], ser_rest(ts.drop_first()) + rest);
        assert(parse_task(inner) == Some((ts[0], ser_rest(ts.drop_first()) + rest)));
        lemma_parse_list_rest_exact(ts.drop_first(), rest);
        assert(parse_list_rest(s) == Some((seq![ts[0]] + ts.drop_first(), rest)));
        assert(seq![ts[0]] + ts.drop_first() =~= ts);
    }
}

#[verifier::rlimit(60)]
proof fn lemma_parse_store_exact(ts: Seq<TaskView>, rest: Seq<char>)
    requires
        rest.len() > 0 ==> !is_ws(rest[0]),
    ensures
        parse_store(ser_store(ts) + rest) == Some((ts, rest)),
{
    let s = ser_store(ts) + rest;
    if ts.len() == 0 {
        let inner = seq![']'] + rest;
        assert(s =~= seq!['['] + inner);
        lemma_expect_tok_exact(seq!['['], inner);
        assert(inner[0] == ']');
        assert(skip_ws(inner) == inner);
        assert(inner.drop_first() =~= rest);
        assert(parse_store(s) == Some((Seq::<TaskView>::empty(), rest)));
    } else {
        let after = ser_rest(ts.drop_first()) + rest;
        let inner = ser_task(ts[0]) + after;
        assert(s =~= seq!['['] + inner);
        lemma_expect_tok_exact(seq!['['], inner);
        assert(inner[0] == '{');
        assert(skip_ws(inner) == inner);
        lemma_parse_task_exact(ts[0], after);
        assert(parse_task(inner) == Some((ts[0], after)));
        lemma_parse_list_rest_exact(ts.drop_first(), rest);
        assert(parse_store(s) == Some((seq![ts[0]] + ts.drop_first(), rest)));
        assert(seq![ts[0]] + ts.drop_first() =~= ts);
    }
}

/// Law: decoding a serialized store yields exactly the tasks it held —
/// same ids, same titles, same flags, same order.
pub proof fn lemma_round_trip(ts: Seq<TaskView>)
    ensures
        tasks_of(ser_store(ts)) == Some(ts),
{
    lemma_parse_store_exact(ts, Seq::empty());
    assert(ser_store(ts) + Seq::<char>::empty() =~= ser_store(ts));
    assert(parse_store(ser_store(ts)) == Some((ts, Seq::<char>::empty())));
    assert(skip_ws(Seq::<char>::empty()).len() == 0);
}

} // verus!
