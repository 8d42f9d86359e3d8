//! Decimal representation of sequence numbers: the canonical digit string of
//! an unsigned integer, its value, and executable encode/parse routines the
//! wire codec builds on.

use vstd::prelude::*;

verus! {

/// Is `c` a decimal digit?
pub open spec fn is_dec_digit(c: char) -> bool {
    0x30 <= c as u32 && c as u32 <= 0x39
}

/// The digit character for `d` in `0..10`.
pub open spec fn dec_digit(d: nat) -> char {
    if d == 0 { '0' }
    else if d == 1 { '1' }
    else if d == 2 { '2' }
    else if d == 3 { '3' }
    else if d == 4 { '4' }
    else if d == 5 { '5' }
    else if d == 6 { '6' }
    else if d == 7 { '7' }
    else if d == 8 { '8' }
    else { '9' }
}

/// The numeric value of a digit character.
pub open spec fn digit_val(c: char) -> nat {
    (c as u32 - 0x30) as nat
}

/// The canonical decimal representation of `n`: no sign, no leading zeros
/// (a single `'0'` for zero).
pub open spec fn spec_dec(n: nat) -> Seq<char>
    decreases n,
{
    if n < 10 {
        seq![dec_digit(n)]
    } else {
        spec_dec(n / 10).push(dec_digit(n % 10))
    }
}

/// The value of a digit string, most significant digit first.
pub open spec fn digits_val(d: Seq<char>) -> nat
    decreases d.len(),
{
    if d.len() == 0 {
        0
    } else {
        digits_val(d.drop_last()) * 10 + digit_val(d.last())
    }
}

/// A string of decimal digits.
pub open spec fn all_digits(d: Seq<char>) -> bool {
    forall|i: int| 0 <= i < d.len() ==> is_dec_digit(#[trigger] d[i])
}

/// The canonical representation is nonempty, made of digits, and free of
/// leading zeros.
pub proof fn lemma_spec_dec_shape(n: nat)
    ensures
        spec_dec(n).len() >= 1,
        all_digits(spec_dec(n)),
        n >= 1 ==> spec_dec(n)[0] != '0',
        spec_dec(n).len() > 1 ==> spec_dec(n)[0] != '0',
        n == 0 ==> spec_dec(n) == seq!['0'],
    decreases n,
{
    if n < 10 {
        assert(spec_dec(n) =~= seq![dec_digit(n)]);
        assert(is_dec_digit(dec_digit(n)));
        if n >= 1 {
            assert(dec_digit(n) != '0');
        }
    } else {
        lemma_spec_dec_shape(n / 10);
        let p = spec_dec(n / 10);
        assert(spec_dec(n) == p.push(dec_digit(n % 10)));
        assert(is_dec_digit(dec_digit(n % 10)));
        assert forall|i: int| 0 <= i < spec_dec(n).len() implies is_dec_digit(#[trigger] spec_dec(n)[i]) by {
            if i < p.len() {
                assert(spec_dec(n)[i] == p[i]);
            }
        }
        assert(n / 10 >= 1);
        assert(spec_dec(n)[0] == p[0]);
    }
}

/// The value of the canonical representation is the number itself.
pub proof fn lemma_digits_val_dec(n: nat)
    ensures
        digits_val(spec_dec(n)) == n,
    decreases n,
{
    if n < 10 {
        let d = spec_dec(n);
        assert(d == seq![dec_digit(n)]);
        assert(d.drop_last() =~= Seq::<char>::empty());
        assert(d.last() == dec_digit(n));
        assert(digits_val(Seq::<char>::empty()) == 0);
        assert(digit_val(dec_digit(n)) == n);
        assert(digits_val(d) == digits_val(d.drop_last()) * 10 + digit_val(d.last()));
    } else {
        lemma_digits_val_dec(n / 10);
        let d = spec_dec(n);
        assert(d == spec_dec(n / 10).push(dec_digit(n % 10)));
        assert(d.drop_last() =~= spec_dec(n / 10));
        assert(d.last() == dec_digit(n % 10));
        assert(digit_val(dec_digit(n % 10)) == n % 10);
        assert(digits_val(d) == (n / 10) * 10 + n % 10);
    }
}

/// The digit character for `d < 10`, executable.
pub fn digit_char(d: usize) -> (c: char)
    requires
        d < 10,
    ensures
        c == dec_digit(d as nat),
{
    match d {
        0 => '0',
        1 => '1',
        2 => '2',
        3 => '3',
        4 => '4',
        5 => '5',
        6 => '6',
        7 => '7',
        8 => '8',
        _ => '9',
    }
}

/// Append the canonical decimal representation of `n` to `out`.
pub fn push_dec(n: usize, out: &mut Vec<char>)
    ensures
        final(out)@ == old(out)@ + spec_dec(n as nat),
    decreases n,
{
    if n < 10 {
        out.push(digit_char(n));
        assert(out@ =~= old(out)@ + spec_dec(n as nat));
    } else {
        push_dec(n / 10, out);
        out.push(digit_char(n % 10));
        assert(out@ =~= old(out)@ + spec_dec(n as nat));
    }
}

/// Is `c` a decimal digit, executable.
pub fn is_digit_char(c: char) -> (r: bool)
    ensures
        r == is_dec_digit(c),
{
    let u: u32 = c as u32;
    0x30 <= u && u <= 0x39
}

/// The longest digit prefix of `s`, and what follows it.
pub open spec fn sp_take_digits(s: Seq<char>) -> (Seq<char>, Seq<char>)
    decreases s.len(),
{
    if s.len() > 0 && is_dec_digit(s[0]) {
        let (d, r) = sp_take_digits(s.skip(1));
        (seq![s[0]] + d, r)
    } else {
        (Seq::empty(), s)
    }
}

/// Taking digits from a digit string followed by a non-digit recovers the
/// digit string exactly.
pub proof fn lemma_take_digits_of_concat(d: Seq<char>, rest: Seq<char>)
    requires
        all_digits(d),
        rest.len() == 0 || !is_dec_digit(rest[0]),
    ensures
        sp_take_digits(d + rest) == (d, rest),
    decreases d.len(),
{
    if d.len() == 0 {
        assert(d + rest =~= rest);
        if rest.len() > 0 {
            assert(!is_dec_digit(rest[0]));
        }
        assert(sp_take_digits(rest) == (Seq::<char>::empty(), rest));
        assert((d + rest).len() == rest.len());
    } else {
        let s = d + rest;
        assert(s[0] == d[0]);
        assert(is_dec_digit(d[0]));
        assert(s.skip(1) =~= d.skip(1) + rest);
        assert(all_digits(d.skip(1))) by {
            assert(forall|i: int| 0 <= i < d.skip(1).len() ==> #[trigger] d.skip(1)[i] == d[i + 1]);
        }
        lemma_take_digits_of_concat(d.skip(1), rest);
        let (d2, r2) = sp_take_digits(s.skip(1));
        assert(d2 == d.skip(1) && r2 == rest);
        assert(seq![s[0]] + d.skip(1) =~= d);
    }
}

/// Parse a canonical unsigned decimal number from the front of `s`: at least
/// one digit, no leading zeros, value within `usize`.
pub open spec fn sp_parse_usize(s: Seq<char>) -> Option<(usize, Seq<char>)> {
    let (d, r) = sp_take_digits(s);
    if d.len() == 0 {
        None
    } else if d.len() > 1 && d[0] == '0' {
        None
    } else if digits_val(d) <= usize::MAX as nat {
        Some((digits_val(d) as usize, r))
    } else {
        None
    }
}

/// Parsing the canonical representation of `n`, followed by anything that
/// does not begin with a digit, yields `n` and that remainder.
pub proof fn lemma_parse_dec_round_trip(n: usize, rest: Seq<char>)
    requires
        rest.len() == 0 || !is_dec_digit(rest[0]),
    ensures
        sp_parse_usize(spec_dec(n as nat) + rest) == Some((n, rest)),
{
    lemma_spec_dec_shape(n as nat);
    lemma_digits_val_dec(n as nat);
    lemma_take_digits_of_concat(spec_dec(n as nat), rest);
    let d = spec_dec(n as nat);
    assert(d.len() >= 1);
    if d.len() > 1 {
        assert(d[0] != '0');
    }
}

/// Appending one digit multiplies the value by ten and adds the digit.
pub proof fn lemma_digits_val_push(d: Seq<char>, c: char)
    ensures
        digits_val(d.push(c)) == digits_val(d) * 10 + digit_val(c),
{
    assert(d.push(c).drop_last() =~= d);
    assert(d.push(c).last() == c);
}

/// Longer digit strings have values at least as large.
pub proof fn lemma_digits_val_prefix_le(d: Seq<char>, i: int)
    requires
        0 <= i <= d.len(),
    ensures
        digits_val(d.take(i)) <= digits_val(d),
    decreases d.len() - i,
{
    if i == d.len() {
        assert(d.take(i) =~= d);
    } else {
        lemma_digits_val_prefix_le(d, i + 1);
        let t = d.take(i + 1);
        assert(t.drop_last() =~= d.take(i));
        assert(digits_val(d.take(i + 1)) == digits_val(d.take(i)) * 10 + digit_val(t.last()));
        assert(digits_val(d.take(i)) * 10 >= digits_val(d.take(i)));
    }
}

/// Parse a canonical unsigned decimal from position `pos` of `v`.  Returns
/// the value and the position just past its digits, exactly when the spec
/// parser succeeds on the corresponding suffix.
#[verifier::loop_isolation(false)]
pub fn parse_usize_at(v: &Vec<char>, pos: usize) -> (r: Option<(usize, usize)>)
    requires
        pos <= v.len(),
    ensures
        match r {
            Some((n, p2)) => {
                &&& pos <= p2 <= v.len()
                &&& sp_parse_usize(v@.skip(pos as int)) == Some((n, v@.skip(p2 as int)))
            },
            None => sp_parse_usize(v@.skip(pos as int)) is None,
        },
{
    let ghost s = v@.skip(pos as int);
    let mut e: usize = pos;
    while e < v.len() && is_digit_char(v[e])
        invariant
            pos <= e <= v.len(),
            all_digits(v@.subrange(pos as int, e as int)),
        decreases v.len() - e,
    {
        assert(v@.subrange(pos as int, e + 1) =~= v@.subrange(pos as int, e as int).push(v@[e as int]));
        e += 1;
    }
    let ghost d = v@.subrange(pos as int, e as int);
    let ghost rest = v@.skip(e as int);
    proof {
        assert(s =~= d + rest);
        if e < v.len() {
            assert(rest[0] == v@[e as int]);
        }
        lemma_take_digits_of_concat(d, rest);
        assert(sp_take_digits(s) == (d, rest));
    }
    if e == pos {
        return None;
    }
    if v[pos] == '0' && e > pos + 1 {
        proof {
            assert(d.len() > 1 && d[0] == '0');
        }
        return None;
    }
    let mut val: usize = 0;
    let mut i: usize = pos;
    while i < e
        invariant
            pos <= i <= e <= v.len(),
            all_digits(v@.subrange(pos as int, e as int)),
            val as nat == digits_val(v@.subrange(pos as int, i as int)),
        decreases e - i,
    {
        let c: char = v[i];
        assert(is_dec_digit(c)) by {
            assert(v@.subrange(pos as int, e as int)[i - pos] == c);
        }
        let dv: u32 = (c as u32) - 0x30;
        let wide: u128 = (val as u128) * 10 + (dv as u128);
        proof {
            assert(v@.subrange(pos as int, i + 1) =~= v@.subrange(pos as int, i as int).push(c));
            lemma_digits_val_push(v@.subrange(pos as int, i as int), c);
        }
        if wide > usize::MAX as u128 {
            proof {
                assert(digits_val(v@.subrange(pos as int, i + 1)) > usize::MAX as nat);
                assert(d.len() == e - pos);
                lemma_digits_val_prefix_le(d, i + 1 - pos);
                assert(d.take(i + 1 - pos) =~= v@.subrange(pos as int, i + 1));
                assert(digits_val(d) > usize::MAX as nat);
            }
            return None;
        }
        val = wide as usize;
        i += 1;
    }
    proof {
        assert(v@.subrange(pos as int, e as int) =~= d);
        assert(val as nat == digits_val(d));
    }
    Some((val, e))
}

/// The canonical decimal string of `n`, executable.
pub fn dec_string(n: usize) -> (r: Vec<char>)
    ensures
        r@ == spec_dec(n as nat),
{
    let mut out: Vec<char> = Vec::new();
    push_dec(n, &mut out);
    assert(out@ =~= spec_dec(n as nat));
    out
}

} // verus!

