use vstd::prelude::*;
use crate::task::{Task, store_view};
use crate::text::push_char;
use crate::codec::{
    key_id, key_title, key_completed, lit_true, lit_false, hex_digit, esc_char, esc_string,
    ser_string, ser_bool, ser_task, ser_rest, ser_store, lemma_esc_string_push,
};

verus! {

fn push_key_id(out: &mut String)
    ensures
        final(out)@ == old(out)@ + key_id(),
{
    push_char(out, '"');
    push_char(out, 'i');
    push_char(out, 'd');
    push_char(out, '"');
    proof {
        assert(out@ =~= old(out)@ + key_id());
    }
}

fn push_key_title(out: &mut String)
    ensures
        final(out)@ == old(out)@ + key_title(),
{
    push_char(out, '"');
    push_char(out, 't');
    push_char(out, 'i');
    push_char(out, 't');
    push_char(out, 'l');
    push_char(out, 'e');
    push_char(out, '"');
    proof {
        assert(out@ =~= old(out)@ + key_title());
    }
}

fn push_key_completed(out: &mut String)
    ensures
        final(out)@ == old(out)@ + key_completed(),
{
    push_char(out, '"');
    push_char(out, 'c');
    push_char(out, 'o');
    push_char(out, 'm');
    push_char(out, 'p');
    push_char(out, 'l');
    push_char(out, 'e');
    push_char(out, 't');
    push_char(out, 'e');
    push_char(out, 'd');
    push_char(out, '"');
    proof {
        assert(out@ =~= old(out)@ + key_completed());
    }
}

fn push_bool(out: &mut String, b: bool)
    ensures
        final(out)@ == old(out)@ + ser_bool(b),
{
    if b {
        push_char(out, 't');
        push_char(out, 'r');
        push_char(out, 'u');
        push_char(out, 'e');
        proof {
            assert(out@ =~= old(out)@ + lit_true());
        }
    } else {
        push_char(out, 'f');
        push_char(out, 'a');
        push_char(out, 'l');
        push_char(out, 's');
        push_char(out, 'e');
        proof {
            assert(out@ =~= old(out)@ + lit_false());
        }
    }
}

/// The hexadecimal digit character for a value below sixteen.
fn hex_digit_char(d: u32) -> (c: char)
    requires
        d < 16,
    ensures
        c == hex_digit(d as int),
{
    if d == 0 { '0' } else if d == 1 { '1' } else if d == 2 { '2' } else if d == 3 { '3' }
    else if d == 4 { '4' } else if d == 5 { '5' } else if d == 6 { '6' } else if d == 7 { '7' }
    else if d == 8 { '8' } else if d == 9 { '9' } else if d == 10 { 'a' } else if d == 11 { 'b' }
    else if d == 12 { 'c' } else if d == 13 { 'd' } else if d == 14 { 'e' } else { 'f' }
}

/// Appends one title character in its stored form.
fn push_escaped_char(out: &mut String, c: char)
    ensures
        final(out)@ == old(out)@ + esc_char(c),
{
    if c == '"' {
        push_char(out, '\\');
        push_char(out, '"');
        proof {
            assert(out@ =~= old(out)@ + esc_char(c));
        }
    } else if c == '\\' {
        push_char(out, '\\');
        push_char(out, '\\');
        proof {
            assert(out@ =~= old(out)@ + esc_char(c));
        }
    } else if c == '\n' {
        push_char(out, '\\');
        push_char(out, 'n');
        proof {
            assert(out@ =~= old(out)@ + esc_char(c));
        }
    } else if c == '\r' {
        push_char(out, '\\');
        push_char(out, 'r');
        proof {
            assert(out@ =~= old(out)@ + esc_char(c));
        }
    } else if c == '\t' {
        push_char(out, '\\');
        push_char(out, 't');
        proof {
            assert(out@ =~= old(out)@ + esc_char(c));
        }
    } else if c == '\u{8}' {
        push_char(out, '\\');
        push_char(out, 'b');
        proof {
            assert(out@ =~= old(out)@ + esc_char(c));
        }
    } else if c == '\u{c}' {
        push_char(out, '\\');
        push_char(out, 'f');
        proof {
            assert(out@ =~= old(out)@ + esc_char(c));
        }
    } else if (c as u32) < 0x20 {
        let u = c as u32;
        push_char(out, '\\');
        push_char(out, 'u');
        push_char(out, '0');
        push_char(out, '0');
        push_char(out, hex_digit_char(u / 16));
        push_char(out, hex_digit_char(u % 16));
        proof {
            assert(out@ =~= old(out)@ + esc_char(c));
        }
    } else {
        push_char(out, c);
        proof {
            assert(out@ =~= old(out)@ + esc_char(c));
        }
    }
}

/// Appends a title as a JSON string, quotes and escapes included.
fn push_string(out: &mut String, title: &String)
    ensures
        final(out)@ == old(out)@ + ser_string(title@),
{
    push_char(out, '"');
    let s = title.as_str();
    let n = s.unicode_len();
    let mut i: usize = 0;
    while i < n
        invariant
            0 <= i <= n,
            n == title@.len(),
            s@ == title@,
            out@ == old(out)@ + seq!['"'] + esc_string(title@.take(i as int)),
        decreases n - i,
    {
        let c = s.get_char(i);
        push_escaped_char(out, c);
        proof {
            assert(title@.take(i + 1) =~= title@.take(i as int).push(title@[i as int]));
            lemma_esc_string_push(title@.take(i as int), title@[i as int]);
        }
        i += 1;
    }
    push_char(out, '"');
    proof {
        assert(title@.take(n as int) =~= title@);
        assert(out@ =~= old(out)@ + ser_string(title@));
    }
}

/// Appends one task as a JSON object.
#[verifier::rlimit(60)]
fn push_task(out: &mut String, t: &Task)
    ensures
        final(out)@ == old(out)@ + ser_task(t@),
{
    push_char(out, '{');
    push_key_id(out);
    push_char(out, ':');
    let digits = crate::text::u32_to_string(t.id);
    out.append(digits.as_str());
    push_char(out, ',');
    push_key_title(out);
    push_char(out, ':');
    push_string(out, &t.title);
    push_char(out, ',');
    push_key_completed(out);
    push_char(out, ':');
    push_bool(out, t.completed);
    push_char(out, '}');
    proof {
        assert(out@ =~= old(out)@ + ser_task(t@));
    }
}

/// A whole store in its stored form: a JSON array with one object per
/// task, in store order.
pub fn serialize_tasks(tasks: &Vec<Task>) -> (out: String)
    ensures
        out@ == ser_store(store_view(tasks@)),
{
    let ghost vs = store_view(tasks@);
    let mut out = String::new();
    push_char(&mut out, '[');
    if tasks.len() == 0 {
        push_char(&mut out, ']');
        proof {
            assert(out@ =~= ser_store(vs));
        }
        return out;
    }
    push_task(&mut out, &tasks[0]);
    proof {
        assert(vs.skip(1) =~= vs.drop_first());
        assert(ser_store(vs) == seq!['['] + ser_task(vs[0]) + ser_rest(vs.skip(1)));
        assert(out@ + ser_rest(vs.skip(1)) =~= ser_store(vs));
    }
    let mut i: usize = 1;
    while i < tasks.len()
        invariant
            1 <= i <= tasks.len(),
            vs == store_view(tasks@),
            vs.len() == tasks@.len(),
            out@ + ser_rest(vs.skip(i as int)) == ser_store(vs),
        decreases tasks@.len() - i,
    {
        let ghost before = out@;
        push_char(&mut out, ',');
        push_task(&mut out, &tasks[i]);
        proof {
            assert(vs.skip(i as int)[0] == vs[i as int]);
            assert(vs.skip(i as int).drop_first() =~= vs.skip(i + 1));
            assert(ser_rest(vs.skip(i as int)) == seq![','] + ser_task(vs[i as int]) + ser_rest(
                vs.skip(i + 1),
            ));
            assert(out@ =~= before + seq![','] + ser_task(vs[i as int]));
            assert(out@ + ser_rest(vs.skip(i + 1)) =~= before + ser_rest(vs.skip(i as int)));
        }
        i += 1;
    }
    push_char(&mut out, ']');
    proof {
        assert(vs.skip(tasks@.len() as int) =~= Seq::<crate::task::TaskView>::empty());
        assert(ser_rest(vs.skip(tasks@.len() as int)) == seq![']']);
        assert(out@ =~= ser_store(vs));
    }
    out
}

} // verus!
