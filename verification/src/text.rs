//! Character-level helpers: conversions between strings and character
//! vectors, and the decimal rendering of counters.

use vstd::prelude::*;

verus! {

/// `String::push` of the standard library: the character is appended at the
/// end of the string and nothing else changes.
pub assume_specification[ std::string::String::push ](s: &mut std::string::String, ch: char)
    ensures
        final(s)@ == old(s)@.push(ch),
;

/// The characters of a string, in order.
pub fn to_chars(s: &str) -> (v: Vec<char>)
    ensures
        v@ == s@,
{
    let mut v: Vec<char> = Vec::new();
    for c in it: s.chars()
        invariant
            v@ == s@.take(it.index() as int),
            it.seq() == s@,
    {
        v.push(c);
    }
    v
}

/// The string made of the given characters, in order.
pub fn to_string(v: &Vec<char>) -> (s: String)
    ensures
        s@ == v@,
{
    let mut s = String::new();
    let mut i: usize = 0;
    while i < v.len()
        invariant
            i <= v.len(),
            s@ == v@.take(i as int),
        decreases v.len() - i,
    {
        s.push(v[i]);
        i += 1;
    }
    s
}

/// The character that stands for a decimal digit.
pub open spec fn digit(d: nat) -> char {
    (d + 48) as char
}

/// The decimal notation of a number, most significant digit first, without
/// leading zeros (zero itself is written `0`).
pub open spec fn decimal(n: nat) -> Seq<char>
    decreases n,
{
    if n < 10 {
        seq![digit(n)]
    } else {
        decimal(n / 10).push(digit(n % 10))
    }
}

fn digit_char(d: u8) -> (c: char)
    requires
        d < 10,
    ensures
        c == digit(d as nat),
{
    (d + 48) as char
}

/// Appends the decimal notation of `n` to `out`.
pub fn push_decimal(out: &mut Vec<char>, n: u128)
    ensures
        final(out)@ == old(out)@ + decimal(n as nat),
{
    let mut low: Vec<char> = Vec::new();
    let mut rest: u128 = n;
    while rest >= 10
        invariant
            decimal(n as nat) == decimal(rest as nat) + low@.reverse(),
        decreases rest,
    {
        let d: u8 = (rest % 10) as u8;
        proof {
            let next = seq![digit(d as nat)] + low@.reverse();
            assert(low@.push(digit(d as nat)).reverse() =~= next);
            assert(decimal(rest as nat) + low@.reverse() =~= decimal((rest / 10) as nat) + next);
        }
        low.push(digit_char(d));
        rest = rest / 10;
    }
    out.push(digit_char(rest as u8));
    let mut k: usize = low.len();
    while k > 0
        invariant
            k <= low.len(),
            out@ == old(out)@ + decimal(rest as nat) + low@.reverse().take(low.len() - k),
        decreases k,
    {
        k -= 1;
        out.push(low[k]);
        assert(low@.reverse().take(low.len() - k) =~= low@.reverse().take(low.len() - (k + 1)).push(
            low@[k as int],
        ));
    }
    assert(low@.reverse().take(low.len() as int) =~= low@.reverse());
}

/// Appends the characters `s[from..to]` to `out`.
pub fn push_range(out: &mut Vec<char>, s: &Vec<char>, from: usize, to: usize)
    requires
        from <= to <= s.len(),
    ensures
        final(out)@ == old(out)@ + s@.subrange(from as int, to as int),
{
    let mut i: usize = from;
    while i < to
        invariant
            from <= i <= to <= s.len(),
            out@ == old(out)@ + s@.subrange(from as int, i as int),
        decreases to - i,
    {
        out.push(s[i]);
        i += 1;
        assert(s@.subrange(from as int, i as int) =~= s@.subrange(from as int, i - 1).push(
            s@[i - 1],
        ));
    }
}

/// Appends all of `s` to `out`.
pub fn push_all(out: &mut Vec<char>, s: &Vec<char>)
    ensures
        final(out)@ == old(out)@ + s@,
{
    push_range(out, s, 0, s.len());
    assert(s@.subrange(0, s.len() as int) =~= s@);
}

/// Appends the characters of a string to `out`.
pub fn push_str(out: &mut Vec<char>, s: &str)
    ensures
        final(out)@ == old(out)@ + s@,
{
    for c in it: s.chars()
        invariant
            out@ == old(out)@ + s@.take(it.index() as int),
            it.seq() == s@,
    {
        out.push(c);
        assert(s@.take(it.index() + 1) =~= s@.take(it.index() as int).push(c));
    }
    assert(s@.take(s@.len() as int) =~= s@);
}

/// The characters `s[from..to]` as a vector of their own.
pub fn copy_range(s: &Vec<char>, from: usize, to: usize) -> (v: Vec<char>)
    requires
        from <= to <= s.len(),
    ensures
        v@ == s@.subrange(from as int, to as int),
{
    let mut v: Vec<char> = Vec::new();
    push_range(&mut v, s, from, to);
    v
}

} // verus!
