//! Building strings in verified code: characters, decimal digits of
//! integers, and slices of a character buffer.

use vstd::prelude::*;

verus! {

/// Relies on String::push: appends the given character to the end of the
/// string.
#[verifier::external_body]
pub fn push_char(s: &mut String, c: char)
    ensures
        final(s)@ == old(s)@.push(c),
{
    s.push(c);
}

/// The source text as the character sequence the lexer works on.
pub fn to_char_vec(s: &str) -> (v: Vec<char>)
    ensures
        v@ == s@,
{
    let mut v: Vec<char> = Vec::new();
    for c in it: s.chars()
        invariant
            v@ == it.seq().take(it.index() as int),
            it.seq() == s@,
    {
        v.push(c);
        proof {
            assert(v@ =~= it.seq().take(it.index() as int + 1));
        }
    }
    proof {
        assert(v@ =~= s@);
    }
    v
}

/// The characters `buf[from..to]` as a fresh string.
pub fn chars_to_string(buf: &Vec<char>, from: usize, to: usize) -> (s: String)
    requires
        from <= to <= buf@.len(),
    ensures
        s@ == buf@.subrange(from as int, to as int),
{
    let mut s = String::new();
    let mut i: usize = from;
    while i < to
        invariant
            from <= i <= to <= buf@.len(),
            s@ == buf@.subrange(from as int, i as int),
        decreases to - i,
    {
        push_char(&mut s, buf[i]);
        i = i + 1;
        proof {
            assert(s@ =~= buf@.subrange(from as int, i as int));
        }
    }
    s
}

pub open spec fn digit_char(d: int) -> char {
    if d == 0 {
        '0'
    } else if d == 1 {
        '1'
    } else if d == 2 {
        '2'
    } else if d == 3 {
        '3'
    } else if d == 4 {
        '4'
    } else if d == 5 {
        '5'
    } else if d == 6 {
        '6'
    } else if d == 7 {
        '7'
    } else if d == 8 {
        '8'
    } else {
        '9'
    }
}

/// The decimal digits of `n`, most significant first.
pub open spec fn dec_digits(n: nat) -> Seq<char>
    decreases n,
{
    if n < 10 {
        seq![digit_char(n as int)]
    } else {
        dec_digits(n / 10).push(digit_char((n % 10) as int))
    }
}

/// The decimal form of a signed number: a minus sign before the digits of
/// its magnitude.
pub open spec fn int_digits(v: int) -> Seq<char> {
    if v < 0 {
        seq!['-'] + dec_digits((-v) as nat)
    } else {
        dec_digits(v as nat)
    }
}

fn digit_char_exec(d: u64) -> (c: char)
    requires
        d < 10,
    ensures
        c == digit_char(d as int),
{
    if d == 0 {
        '0'
    } else if d == 1 {
        '1'
    } else if d == 2 {
        '2'
    } else if d == 3 {
        '3'
    } else if d == 4 {
        '4'
    } else if d == 5 {
        '5'
    } else if d == 6 {
        '6'
    } else if d == 7 {
        '7'
    } else if d == 8 {
        '8'
    } else {
        '9'
    }
}

/// Appends the decimal digits of `n`.
pub fn append_u64(s: &mut String, n: u64)
    ensures
        final(s)@ == old(s)@ + dec_digits(n as nat),
    decreases n,
{
    if n < 10 {
        push_char(s, digit_char_exec(n));
        proof {
            assert(s@ =~= old(s)@ + dec_digits(n as nat));
        }
    } else {
        append_u64(s, n / 10);
        push_char(s, digit_char_exec(n % 10));
        proof {
            assert(s@ =~= old(s)@ + dec_digits(n as nat));
        }
    }
}

/// Appends the decimal form of `v`, minus sign included.
pub fn append_i64(s: &mut String, v: i64)
    ensures
        final(s)@ == old(s)@ + int_digits(v as int),
{
    if v < 0 {
        push_char(s, '-');
        let mag = (-(v as i128)) as u64;
        append_u64(s, mag);
        proof {
            assert(s@ =~= old(s)@ + int_digits(v as int));
        }
    } else {
        append_u64(s, v as u64);
    }
}

/// Exactly `w` digits of `fp`, leading zeros kept: the fractional part of
/// a decimal rendered at scale `w`.
pub open spec fn frac_digits(fp: nat, w: nat) -> Seq<char>
    decreases w,
{
    if w == 0 {
        Seq::empty()
    } else {
        frac_digits(fp / 10, (w - 1) as nat).push(digit_char((fp % 10) as int))
    }
}

/// Appends `w` digits of `fp`, leading zeros kept.
pub fn append_frac(s: &mut String, fp: u64, w: u32)
    ensures
        final(s)@ == old(s)@ + frac_digits(fp as nat, w as nat),
    decreases w,
{
    if w == 0 {
        proof {
            assert(s@ =~= old(s)@ + frac_digits(fp as nat, 0));
        }
    } else {
        append_frac(s, fp / 10, w - 1);
        push_char(s, digit_char_exec(fp % 10));
        proof {
            assert(s@ =~= old(s)@ + frac_digits(fp as nat, w as nat));
        }
    }
}

} // verus!
