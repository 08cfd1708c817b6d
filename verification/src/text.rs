use vstd::prelude::*;

verus! {

/// Relies on String::push: appends the given character to the string.
#[verifier::external_body]
pub(crate) fn push_char(s: &mut String, c: char)
    ensures
        final(s)@ == old(s)@.push(c),
{
    s.push(c)
}

/// The characters of a string slice, as a vector.
pub fn chars_of(s: &str) -> (v: Vec<char>)
    ensures
        v@ == s@,
{
    let n = s.unicode_len();
    let mut v: Vec<char> = Vec::new();
    let mut i: usize = 0;
    while i < n
        invariant
            0 <= i <= n,
            n == s@.len(),
            v@ == s@.take(i as int),
        decreases n - i,
    {
        v.push(s.get_char(i));
        proof {
            assert(v@ =~= s@.take(i + 1));
        }
        i += 1;
    }
    proof {
        assert(s@.take(n as int) =~= s@);
    }
    v
}

/// The decimal digit character for a value below ten.
pub open spec fn digit_char(d: u32) -> char {
    (('0' as u32) + d) as char
}

/// The numeric value of a decimal digit character.
pub open spec fn digit_val(c: char) -> u32 {
    ((c as u32) - ('0' as u32)) as u32
}

pub open spec fn is_digit(c: char) -> bool {
    '0' as u32 <= c as u32 <= '9' as u32
}

/// The decimal numeral of a value: its digits, most significant first.
pub open spec fn dec_digits(v: u32) -> Seq<char>
    decreases v,
{
    if v < 10 {
        seq![digit_char(v)]
    } else {
        dec_digits(v / 10).push(digit_char(v % 10))
    }
}

/// A numeral is never empty and consists of digit characters only.
pub proof fn lemma_dec_digits_shape(v: u32)
    ensures
        dec_digits(v).len() >= 1,
        forall|k: int| 0 <= k < dec_digits(v).len() ==> is_digit(#[trigger] dec_digits(v)[k]),
    decreases v,
{
    if v >= 10 {
        lemma_dec_digits_shape(v / 10);
    }
}

/// The value a digit sequence denotes, read most significant first.
pub open spec fn digits_to_nat(ds: Seq<char>) -> nat
    decreases ds.len(),
{
    if ds.len() == 0 {
        0
    } else {
        digits_to_nat(ds.drop_last()) * 10 + digit_val(ds.last()) as nat
    }
}

/// Reading a numeral back gives the value it was written from.
pub proof fn lemma_digits_value(v: u32)
    ensures
        digits_to_nat(dec_digits(v)) == v,
    decreases v,
{
    assert(digits_to_nat(Seq::<char>::empty()) == 0);
    if v < 10 {
        assert(dec_digits(v).drop_last() =~= Seq::<char>::empty());
        assert(dec_digits(v).last() == digit_char(v));
        assert(digit_val(digit_char(v)) == v);
        assert(digits_to_nat(dec_digits(v)) == digit_val(digit_char(v)));
    } else {
        lemma_digits_value(v / 10);
        assert(dec_digits(v).drop_last() =~= dec_digits(v / 10));
        assert(dec_digits(v).last() == digit_char(v % 10));
        assert(digit_val(digit_char(v % 10)) == v % 10);
        assert(digits_to_nat(dec_digits(v)) == digits_to_nat(dec_digits(v / 10)) * 10 + v % 10);
    }
}

/// A digit sequence denotes at least as much as any of its prefixes.
pub proof fn lemma_digits_to_nat_prefix(ds: Seq<char>, m: int)
    requires
        0 <= m <= ds.len(),
    ensures
        digits_to_nat(ds) >= digits_to_nat(ds.take(m)),
    decreases ds.len(),
{
    if m == ds.len() {
        assert(ds.take(m) =~= ds);
    } else {
        assert(ds.len() > 0);
        lemma_digits_to_nat_prefix(ds.drop_last(), m);
        assert(ds.drop_last().take(m) =~= ds.take(m));
        assert(digits_to_nat(ds) >= digits_to_nat(ds.drop_last()));
    }
}

/// The decimal numeral of a value, as a string.
pub fn u32_to_string(v: u32) -> (s: String)
    ensures
        s@ == dec_digits(v),
    decreases v,
{
    if v < 10 {
        let mut s = String::new();
        push_char(&mut s, (('0' as u8) + (v as u8)) as char);
        proof {
            assert(s@ =~= seq![digit_char(v)]);
        }
        s
    } else {
        let mut s = u32_to_string(v / 10);
        push_char(&mut s, (('0' as u8) + ((v % 10) as u8)) as char);
        proof {
            assert(s@ =~= dec_digits(v / 10).push(digit_char(v % 10)));
        }
        s
    }
}

} // verus!
