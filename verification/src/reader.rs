use vstd::prelude::*;
use crate::task::{Task, TaskView, store_view};
use crate::text::{
    push_char, chars_of, is_digit, digit_val, digits_to_nat, lemma_digits_to_nat_prefix,
};
use crate::codec::{
    key_id, key_title, key_completed, lit_true, lit_false, is_hex, hex_val, unescape, is_ws,
    skip_ws, expect_tok, take_digits, parse_u32_tok, parse_string_body, parse_bool_tok,
    parse_id_field, parse_title_field, parse_completed_field, parse_task, parse_list_rest,
    parse_store, tasks_of, lemma_take_digits_span,
};

verus! {

fn is_ws_char(c: char) -> (b: bool)
    ensures
        b == is_ws(c),
{
    c == ' ' || c == '\n' || c == '\t' || c == '\r'
}

fn is_digit_char(c: char) -> (b: bool)
    ensures
        b == is_digit(c),
{
    let u = c as u32;
    48 <= u && u <= 57
}

/// The position after the leading whitespace at `i`.
fn scan_ws(v: &Vec<char>, i: usize) -> (j: usize)
    requires
        i <= v@.len(),
    ensures
        i <= j <= v@.len(),
        skip_ws(v@.skip(i as int)) == v@.skip(j as int),
{
    let mut j = i;
    while j < v.len() && is_ws_char(v[j])
        invariant
            i <= j <= v@.len(),
            skip_ws(v@.skip(i as int)) == skip_ws(v@.skip(j as int)),
        decreases v@.len() - j,
    {
        proof {
            assert(v@.skip(j as int)[0] == v@[j as int]);
            assert(v@.skip(j as int).drop_first() =~= v@.skip(j + 1));
        }
        j += 1;
    }
    proof {
        if j == v@.len() {
            assert(v@.skip(j as int) =~= Seq::<char>::empty());
        } else {
            assert(v@.skip(j as int)[0] == v@[j as int]);
        }
        assert(skip_ws(v@.skip(j as int)) == v@.skip(j as int));
    }
    j
}

fn tok1(c: char) -> (t: Vec<char>)
    ensures
        t@ == seq![c],
{
    let mut t: Vec<char> = Vec::new();
    t.push(c);
    proof {
        assert(t@ =~= seq![c]);
    }
    t
}

fn tok_key_id() -> (t: Vec<char>)
    ensures
        t@ == key_id(),
{
    let mut t: Vec<char> = Vec::new();
    t.push('"');
    t.push('i');
    t.push('d');
    t.push('"');
    proof {
        assert(t@ =~= key_id());
    }
    t
}

fn tok_key_title() -> (t: Vec<char>)
    ensures
        t@ == key_title(),
{
    let mut t: Vec<char> = Vec::new();
    t.push('"');
    t.push('t');
    t.push('i');
    t.push('t');
    t.push('l');
    t.push('e');
    t.push('"');
    proof {
        assert(t@ =~= key_title());
    }
    t
}

fn tok_key_completed() -> (t: Vec<char>)
    ensures
        t@ == key_completed(),
{
    let mut t: Vec<char> = Vec::new();
    t.push('"');
    t.push('c');
    t.push('o');
    t.push('m');
    t.push('p');
    t.push('l');
    t.push('e');
    t.push('t');
    t.push('e');
    t.push('d');
    t.push('"');
    proof {
        assert(t@ =~= key_completed());
    }
    t
}

fn tok_true() -> (t: Vec<char>)
    ensures
        t@ == lit_true(),
{
    let mut t: Vec<char> = Vec::new();
    t.push('t');
    t.push('r');
    t.push('u');
    t.push('e');
    proof {
        assert(t@ =~= lit_true());
    }
    t
}

fn tok_false() -> (t: Vec<char>)
    ensures
        t@ == lit_false(),
{
    let mut t: Vec<char> = Vec::new();
    t.push('f');
    t.push('a');
    t.push('l');
    t.push('s');
    t.push('e');
    proof {
        assert(t@ =~= lit_false());
    }
    t
}

/// Reads the given token after optional whitespace; returns the position
/// after it.
fn scan_tok(v: &Vec<char>, i: usize, tok: &Vec<char>) -> (r: Option<usize>)
    requires
        i <= v@.len(),
        tok@.len() >= 1,
    ensures
        match r {
            Some(j) => i <= j <= v@.len() && expect_tok(v@.skip(i as int), tok@) == Some(
                v@.skip(j as int),
            ),
            None => expect_tok(v@.skip(i as int), tok@) is None,
        },
{
    let j = scan_ws(v, i);
    let ghost t = v@.skip(j as int);
    if v.len() - j < tok.len() {
        proof {
            assert(t.len() < tok@.len());
        }
        return None;
    }
    let mut k: usize = 0;
    while k < tok.len()
        invariant
            0 <= k <= tok@.len(),
            i <= j <= v@.len(),
            j + tok@.len() <= v@.len(),
            j + tok@.len() <= usize::MAX,
            t == v@.skip(j as int),
            skip_ws(v@.skip(i as int)) == t,
            forall|m: int| 0 <= m < k ==> t[m] == tok@[m],
        decreases tok@.len() - k,
    {
        proof {
            assert(k < tok@.len() && j + tok@.len() <= v@.len());
            assert(j + k < v@.len());
            assert(t[k as int] == v@[j + k]);
        }
        if v[j + k] != tok[k] {
            proof {
                if t.take(tok@.len() as int) == tok@ {
                    assert(t.take(tok@.len() as int)[k as int] == t[k as int]);
                    assert(t.take(tok@.len() as int)[k as int] == tok@[k as int]);
                }
            }
            return None;
        }
        k += 1;
    }
    proof {
        assert(t.take(tok@.len() as int) =~= tok@);
        assert(t.skip(tok@.len() as int) =~= v@.skip(j + tok@.len()));
    }
    Some(j + tok.len())
}

/// Reads a decimal number after optional whitespace.
fn scan_u32(v: &Vec<char>, i: usize) -> (r: Option<(u32, usize)>)
    requires
        i <= v@.len(),
    ensures
        match r {
            Some(p) => i <= p.1 <= v@.len() && parse_u32_tok(v@.skip(i as int)) == Some(
                (p.0, v@.skip(p.1 as int)),
            ),
            None => parse_u32_tok(v@.skip(i as int)) is None,
        },
{
    let j = scan_ws(v, i);
    let ghost t = v@.skip(j as int);
    let mut k = j;
    while k < v.len() && is_digit_char(v[k])
        invariant
            j <= k <= v@.len(),
            forall|m: int| j <= m < k ==> is_digit(#[trigger] v@[m]),
        decreases v@.len() - k,
    {
        k += 1;
    }
    proof {
        assert forall|m: int| 0 <= m < k - j implies is_digit(#[trigger] t[m]) by {
            assert(t[m] == v@[j + m]);
        }
        if k < v@.len() {
            assert(t[k - j] == v@[k as int]);
        }
        lemma_take_digits_span(t, k - j);
    }
    if k == j {
        proof {
            assert(t.take(0).len() == 0);
            assert(take_digits(t).0.len() == 0);
            assert(skip_ws(v@.skip(i as int)) == t);
            assert(parse_u32_tok(v@.skip(i as int)) is None);
        }
        return None;
    }
    let ghost ds = t.take(k - j);
    let mut val: u32 = 0;
    let mut m = j;
    proof {
        assert(v@.subrange(j as int, j as int) =~= Seq::<char>::empty());
        assert(t.skip(k - j) =~= v@.skip(k as int));
    }
    while m < k
        invariant
            i <= j <= m <= k <= v@.len(),
            t == v@.skip(j as int),
            skip_ws(v@.skip(i as int)) == t,
            ds == t.take(k - j),
            ds.len() > 0,
            take_digits(t).0 == ds,
            take_digits(t).1 == v@.skip(k as int),
            forall|q: int| j <= q < k ==> is_digit(#[trigger] v@[q]),
            digits_to_nat(v@.subrange(j as int, m as int)) == val,
        decreases k - m,
    {
        let u = v[m] as u32;
        proof {
            assert(is_digit(v@[m as int]));
        }
        let d = u - 48;
        let ghost prefix = v@.subrange(j as int, m as int);
        let ghost prefix1 = v@.subrange(j as int, m + 1);
        proof {
            assert(prefix1.drop_last() =~= prefix);
            assert(prefix1.last() == v@[m as int]);
            assert(digit_val(v@[m as int]) == d);
            assert(digits_to_nat(prefix1) == val * 10 + d);
        }
        if val > (u32::MAX - d) / 10 {
            proof {
                let q = (u32::MAX - d) / 10;
                assert(q * 10 + (u32::MAX - d) % 10 == u32::MAX - d);
                assert(val * 10 + d > u32::MAX);
                assert(digits_to_nat(prefix1) > u32::MAX);
                assert(prefix1 =~= ds.take(m + 1 - j)) by {
                    assert(ds.take(m + 1 - j) =~= v@.subrange(j as int, m + 1));
                }
                lemma_digits_to_nat_prefix(ds, m + 1 - j);
                assert(digits_to_nat(ds) > u32::MAX);
            }
            return None;
        }
        proof {
            let q = (u32::MAX - d) / 10;
            assert(q * 10 + (u32::MAX - d) % 10 == u32::MAX - d);
            assert(val * 10 + d <= u32::MAX);
        }
        val = val * 10 + d;
        m += 1;
    }
    proof {
        assert(v@.subrange(j as int, k as int) =~= ds);
        assert(digits_to_nat(ds) == val);
        assert(t.skip(k - j) =~= v@.skip(k as int));
    }
    Some((val, k))
}

fn hex_val_char(c: char) -> (r: Option<u32>)
    ensures
        match r {
            Some(d) => is_hex(c) && hex_val(c) == d && d < 16,
            None => !is_hex(c),
        },
{
    let u = c as u32;
    if 48 <= u && u <= 57 {
        Some(u - 48)
    } else if 97 <= u && u <= 102 {
        Some(u - 97 + 10)
    } else if 65 <= u && u <= 70 {
        Some(u - 65 + 10)
    } else {
        None
    }
}

fn unescape_char(c: char) -> (r: Option<char>)
    ensures
        r == unescape(c),
{
    if c == '"' {
        Some('"')
    } else if c == '\\' {
        Some('\\')
    } else if c == '/' {
        Some('/')
    } else if c == 'n' {
        Some('\n')
    } else if c == 'r' {
        Some('\r')
    } else if c == 't' {
        Some('\t')
    } else if c == 'b' {
        Some('\u{8}')
    } else if c == 'f' {
        Some('\u{c}')
    } else {
        None
    }
}

/// Reads the inside of a JSON string starting at `i`, appending the
/// characters read so far to `acc`.
fn scan_string(v: &Vec<char>, i: usize, acc: String) -> (r: Option<(String, usize)>)
    requires
        i <= v@.len(),
    ensures
        match parse_string_body(v@.skip(i as int)) {
            None => r is None,
            Some(p) => r is Some && r.unwrap().0@ == acc@ + p.0 && i <= r.unwrap().1 <= v@.len()
                && v@.skip(r.unwrap().1 as int) == p.1,
        },
    decreases v@.len() - i,
{
    let ghost s = v@.skip(i as int);
    if i == v.len() {
        proof {
            assert(s.len() == 0);
        }
        return None;
    }
    let c = v[i];
    proof {
        assert(s[0] == v@[i as int]);
        assert(s.len() == v@.len() - i);
    }
    if c == '"' {
        let mut out = acc;
        proof {
            assert(s.drop_first() =~= v@.skip(i + 1));
            assert(out@ + Seq::<char>::empty() =~= out@);
        }
        return Some((out, i + 1));
    }
    if c == '\\' {
        if i + 1 == v.len() {
            proof {
                assert(s.len() < 2);
            }
            return None;
        }
        let e = v[i + 1];
        proof {
            assert(s[1] == v@[i + 1]);
        }
        if e == 'u' {
            if v.len() - i < 6 {
                proof {
                    assert(s.len() < 6);
                }
                return None;
            }
            proof {
                assert(s[2] == v@[i + 2] && s[3] == v@[i + 3] && s[4] == v@[i + 4] && s[5] == v@[
                    i + 5
                ]);
            }
            let h2 = hex_val_char(v[i + 2]);
            let h3 = hex_val_char(v[i + 3]);
            let h4 = hex_val_char(v[i + 4]);
            let h5 = hex_val_char(v[i + 5]);
            if h2.is_none() || h3.is_none() || h4.is_none() || h5.is_none() {
                return None;
            }
            let a = h2.unwrap();
            let b = h3.unwrap();
            let c4 = h4.unwrap();
            let d5 = h5.unwrap();
            let code = ((a * 16 + b) * 16 + c4) * 16 + d5;
            if code >= 0x80 {
                return None;
            }
            let ch = (code as u8) as char;
            let mut acc2 = acc;
            push_char(&mut acc2, ch);
            proof {
                assert(s.skip(6) =~= v@.skip(i + 6));
            }
            let res = scan_string(v, i + 6, acc2);
            proof {
                if parse_string_body(v@.skip(i + 6)) is Some {
                    let p = parse_string_body(v@.skip(i + 6)).unwrap();
                    assert(acc2@ + p.0 =~= acc@ + (seq![ch] + p.0));
                }
            }
            return res;
        }
        match unescape_char(e) {
            None => {
                return None;
            },
            Some(ch) => {
                let mut acc2 = acc;
                push_char(&mut acc2, ch);
                proof {
                    assert(s.skip(2) =~= v@.skip(i + 2));
                }
                let res = scan_string(v, i + 2, acc2);
                proof {
                    if parse_string_body(v@.skip(i + 2)) is Some {
                        let p = parse_string_body(v@.skip(i + 2)).unwrap();
                        assert(acc2@ + p.0 =~= acc@ + (seq![ch] + p.0));
                    }
                }
                return res;
            },
        }
    }
    if (c as u32) < 0x20 {
        return None;
    }
    let mut acc2 = acc;
    push_char(&mut acc2, c);
    proof {
        assert(s.drop_first() =~= v@.skip(i + 1));
    }
    let res = scan_string(v, i + 1, acc2);
    proof {
        if parse_string_body(v@.skip(i + 1)) is Some {
            let p = parse_string_body(v@.skip(i + 1)).unwrap();
            assert(acc2@ + p.0 =~= acc@ + (seq![c] + p.0));
        }
    }
    res
}

/// Reads `true` or `false` after optional whitespace.
fn scan_bool(v: &Vec<char>, i: usize) -> (r: Option<(bool, usize)>)
    requires
        i <= v@.len(),
    ensures
        match r {
            Some(p) => i <= p.1 <= v@.len() && parse_bool_tok(v@.skip(i as int)) == Some(
                (p.0, v@.skip(p.1 as int)),
            ),
            None => parse_bool_tok(v@.skip(i as int)) is None,
        },
{
    let tt = tok_true();
    match scan_tok(v, i, &tt) {
        Some(j) => Some((true, j)),
        None => {
            let tf = tok_false();
            match scan_tok(v, i, &tf) {
                Some(j) => Some((false, j)),
                None => None,
            }
        },
    }
}

/// Reads the `id` field after optional whitespace.
fn scan_id_field(v: &Vec<char>, i: usize) -> (r: Option<(u32, usize)>)
    requires
        i <= v@.len(),
    ensures
        match r {
            Some(p) => i <= p.1 <= v@.len() && parse_id_field(v@.skip(i as int)) == Some(
                (p.0, v@.skip(p.1 as int)),
            ),
            None => parse_id_field(v@.skip(i as int)) is None,
        },
{
    let kid = tok_key_id();
    let j1 = match scan_tok(v, i, &kid) {
        None => {
            return None;
        },
        Some(j) => j,
    };
    let tc = tok1(':');
    let j2 = match scan_tok(v, j1, &tc) {
        None => {
            return None;
        },
        Some(j) => j,
    };
    scan_u32(v, j2)
}

/// Reads the `title` field after optional whitespace.
fn scan_title_field(v: &Vec<char>, i: usize) -> (r: Option<(String, usize)>)
    requires
        i <= v@.len(),
    ensures
        match r {
            Some(p) => i <= p.1 <= v@.len() && parse_title_field(v@.skip(i as int)) == Some(
                (p.0@, v@.skip(p.1 as int)),
            ),
            None => parse_title_field(v@.skip(i as int)) is None,
        },
{
    let ktitle = tok_key_title();
    let j1 = match scan_tok(v, i, &ktitle) {
        None => {
            return None;
        },
        Some(j) => j,
    };
    let tc = tok1(':');
    let j2 = match scan_tok(v, j1, &tc) {
        None => {
            return None;
        },
        Some(j) => j,
    };
    let tq = tok1('"');
    let j3 = match scan_tok(v, j2, &tq) {
        None => {
            return None;
        },
        Some(j) => j,
    };
    match scan_string(v, j3, String::new()) {
        None => None,
        Some((title, j4)) => {
            proof {
                let p = parse_string_body(v@.skip(j3 as int)).unwrap();
                assert(Seq::<char>::empty() + p.0 =~= p.0);
            }
            Some((title, j4))
        },
    }
}

/// Reads the `completed` field after optional whitespace.
fn scan_completed_field(v: &Vec<char>, i: usize) -> (r: Option<(bool, usize)>)
    requires
        i <= v@.len(),
    ensures
        match r {
            Some(p) => i <= p.1 <= v@.len() && parse_completed_field(v@.skip(i as int)) == Some(
                (p.0, v@.skip(p.1 as int)),
            ),
            None => parse_completed_field(v@.skip(i as int)) is None,
        },
{
    let kcomp = tok_key_completed();
    let j1 = match scan_tok(v, i, &kcomp) {
        None => {
            return None;
        },
        Some(j) => j,
    };
    let tc = tok1(':');
    let j2 = match scan_tok(v, j1, &tc) {
        None => {
            return None;
        },
        Some(j) => j,
    };
    scan_bool(v, j2)
}

/// Reads one task object after optional whitespace.
fn scan_task(v: &Vec<char>, i: usize) -> (r: Option<(Task, usize)>)
    requires
        i <= v@.len(),
    ensures
        match r {
            Some(p) => i <= p.1 <= v@.len() && parse_task(v@.skip(i as int)) == Some(
                (p.0@, v@.skip(p.1 as int)),
            ),
            None => parse_task(v@.skip(i as int)) is None,
        },
{
    let tb = tok1('{');
    let j1 = match scan_tok(v, i, &tb) {
        None => {
            return None;
        },
        Some(j) => j,
    };
    let (id, j2) = match scan_id_field(v, j1) {
        None => {
            return None;
        },
        Some(p) => p,
    };
    let tcm = tok1(',');
    let j3 = match scan_tok(v, j2, &tcm) {
        None => {
            return None;
        },
        Some(j) => j,
    };
    let (title, j4) = match scan_title_field(v, j3) {
        None => {
            return None;
        },
        Some(p) => p,
    };
    let j5 = match scan_tok(v, j4, &tcm) {
        None => {
            return None;
        },
        Some(j) => j,
    };
    let (done, j6) = match scan_completed_field(v, j5) {
        None => {
            return None;
        },
        Some(p) => p,
    };
    let trb = tok1('}');
    let j7 = match scan_tok(v, j6, &trb) {
        None => {
            return None;
        },
        Some(j) => j,
    };
    let t = Task { id, title, completed: done };
    Some((t, j7))
}

/// Reads the tail of the array: a comma and a task, repeated, then the
/// closing bracket.  Tasks read so far are carried in `acc`.
fn scan_list_rest(v: &Vec<char>, i: usize, acc: Vec<Task>) -> (r: Option<(Vec<Task>, usize)>)
    requires
        i <= v@.len(),
    ensures
        match parse_list_rest(v@.skip(i as int)) {
            None => r is None,
            Some(q) => r is Some && store_view(r.unwrap().0@) == store_view(acc@) + q.0 && i
                <= r.unwrap().1 <= v@.len() && v@.skip(r.unwrap().1 as int) == q.1,
        },
    decreases v@.len() - i,
{
    let j = scan_ws(v, i);
    let ghost t = v@.skip(j as int);
    if j == v.len() {
        proof {
            assert(t.len() == 0);
        }
        return None;
    }
    let c = v[j];
    proof {
        assert(t[0] == v@[j as int]);
    }
    if c == ']' {
        proof {
            assert(t.drop_first() =~= v@.skip(j + 1));
            assert(store_view(acc@) + Seq::<TaskView>::empty() =~= store_view(acc@));
        }
        return Some((acc, j + 1));
    }
    if c == ',' {
        proof {
            assert(t.drop_first() =~= v@.skip(j + 1));
        }
        match scan_task(v, j + 1) {
            None => {
                return None;
            },
            Some((task, j2)) => {
                let ghost tv = task@;
                let mut acc2 = acc;
                acc2.push(task);
                proof {
                    assert(store_view(acc2@) =~= store_view(acc@).push(tv));
                }
                let res = scan_list_rest(v, j2, acc2);
                proof {
                    if parse_list_rest(v@.skip(j2 as int)) is Some {
                        let q2 = parse_list_rest(v@.skip(j2 as int)).unwrap();
                        assert(store_view(acc@).push(tv) + q2.0 =~= store_view(acc@) + (seq![tv]
                            + q2.0));
                    }
                }
                return res;
            },
        }
    }
    None
}

/// Reads a whole array from the start of the input.
fn scan_store(v: &Vec<char>) -> (r: Option<(Vec<Task>, usize)>)
    ensures
        match parse_store(v@) {
            None => r is None,
            Some(q) => r is Some && store_view(r.unwrap().0@) == q.0 && r.unwrap().1 <= v@.len()
                && v@.skip(r.unwrap().1 as int) == q.1,
        },
{
    proof {
        assert(v@.skip(0) =~= v@);
    }
    let tlb = tok1('[');
    let j1 = match scan_tok(v, 0, &tlb) {
        None => {
            return None;
        },
        Some(j) => j,
    };
    let j2 = scan_ws(v, j1);
    let ghost t = v@.skip(j2 as int);
    if j2 < v.len() {
        let c = v[j2];
        if c == ']' {
            let out: Vec<Task> = Vec::new();
            proof {
                assert(t[0] == v@[j2 as int]);
                assert(t.drop_first() =~= v@.skip(j2 + 1));
                assert(store_view(out@) =~= Seq::<TaskView>::empty());
            }
            return Some((out, j2 + 1));
        }
    }
    match scan_task(v, j2) {
        None => None,
        Some((task, j3)) => {
            let ghost tv = task@;
            let mut acc: Vec<Task> = Vec::new();
            acc.push(task);
            proof {
                assert(store_view(acc@) =~= seq![tv]);
            }
            match scan_list_rest(v, j3, acc) {
                None => None,
                Some((out, j4)) => {
                    proof {
                        let q2 = parse_list_rest(v@.skip(j3 as int)).unwrap();
                        assert(seq![tv] + q2.0 == store_view(out@));
                    }
                    Some((out, j4))
                },
            }
        },
    }
}

/// Reads a store from file text: the tasks it holds, in order, or `None`
/// where the text does not parse as a store.
pub fn parse_tasks(data: &str) -> (r: Option<Vec<Task>>)
    ensures
        match tasks_of(data@) {
            None => r is None,
            Some(ts) => r is Some && store_view(r.unwrap()@) == ts,
        },
{
    let v = chars_of(data);
    match scan_store(&v) {
        None => None,
        Some((out, j)) => {
            let k = scan_ws(&v, j);
            if k == v.len() {
                proof {
                    assert(v@.skip(k as int).len() == 0);
                }
                Some(out)
            } else {
                proof {
                    assert(v@.skip(k as int).len() > 0);
                }
                None
            }
        },
    }
}

/// Reads a store from file text as loading does: text that does not parse
/// as a store stands for the empty store.
///
/// Beware: unreadable contents are discarded silently, and the next write
/// overwrites them for good.
pub fn decode_store(data: &str) -> (tasks: Vec<Task>)
    ensures
        match tasks_of(data@) {
            Some(ts) => store_view(tasks@) == ts,
            None => tasks@.len() == 0,
        },
{
    match parse_tasks(data) {
        Some(ts) => ts,
        None => Vec::new(),
    }
}

} // verus!
