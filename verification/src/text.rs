//! Decimal rendering of counters and indices for human-readable labels.

use vstd::prelude::*;
use vstd::string::*;

verus! {

/// The character of decimal digit `d`.
pub open spec fn digit_char(d: nat) -> char {
    if d == 0 { '0' } else if d == 1 { '1' } else if d == 2 { '2' } else if d == 3 { '3' }
    else if d == 4 { '4' } else if d == 5 { '5' } else if d == 6 { '6' } else if d == 7 { '7' }
    else if d == 8 { '8' } else { '9' }
}

/// Base-10 rendering of `n`, most significant digit first, without leading zeros.
pub open spec fn decimal(n: nat) -> Seq<char>
    decreases n,
{
    if n < 10 {
        seq![digit_char(n)]
    } else {
        decimal(n / 10) + seq![digit_char(n % 10)]
    }
}

/// One-character string of a decimal digit.
fn digit_str(d: usize) -> (s: &'static str)
    requires
        d < 10,
    ensures
        s@ == seq![digit_char(d as nat)],
{
    proof {
        reveal_strlit("0");
        reveal_strlit("1");
        reveal_strlit("2");
        reveal_strlit("3");
        reveal_strlit("4");
        reveal_strlit("5");
        reveal_strlit("6");
        reveal_strlit("7");
        reveal_strlit("8");
        reveal_strlit("9");
    }
    if d == 0 { "0" } else if d == 1 { "1" } else if d == 2 { "2" } else if d == 3 { "3" }
    else if d == 4 { "4" } else if d == 5 { "5" } else if d == 6 { "6" } else if d == 7 { "7" }
    else if d == 8 { "8" } else { "9" }
}

/// Appends the decimal rendering of `n` to `s`.
pub fn push_decimal(s: &mut String, n: usize)
    ensures
        final(s)@ == old(s)@ + decimal(n as nat),
    decreases n,
{
    if n >= 10 {
        push_decimal(s, n / 10);
    }
    s.append(digit_str(n % 10));
    assert(decimal(n as nat) == if n < 10 { seq![digit_char(n as nat)] } else { decimal((n / 10) as nat) + seq![digit_char((n % 10) as nat)] });
}


/// The pieces separated by `sep`.
pub open spec fn join(pieces: Seq<Seq<char>>, sep: Seq<char>) -> Seq<char>
    decreases pieces.len(),
{
    if pieces.len() == 0 {
        Seq::empty()
    } else if pieces.len() == 1 {
        pieces[0]
    } else {
        join(pieces.drop_last(), sep) + sep + pieces.last()
    }
}

/// The views of the strings in `v`.
pub open spec fn string_views(v: Seq<String>) -> Seq<Seq<char>> {
    v.map_values(|s: String| s@)
}

/// Appends the strings of `pieces`, separated by `sep`, to `s`.
pub fn push_joined(s: &mut String, pieces: &[String], sep: &str)
    ensures
        final(s)@ == old(s)@ + join(string_views(pieces@), sep@),
{
    let ghost start = s@;
    let mut i: usize = 0;
    while i < pieces.len()
        invariant
            i <= pieces@.len(),
            s@ == start + join(string_views(pieces@.subrange(0, i as int)), sep@),
        decreases pieces@.len() - i,
    {
        let ghost before = s@;
        if i > 0 {
            s.append(sep);
        }
        s.append(pieces[i].as_str());
        proof {
            let done = string_views(pieces@.subrange(0, i + 1));
            assert(string_views(pieces@.subrange(0, i + 1)).drop_last() == string_views(pieces@.subrange(0, i as int)));
            assert(done.last() == pieces@[i as int]@);
            if i == 0 {
                assert(string_views(pieces@.subrange(0, 0)) == Seq::<Seq<char>>::empty());
                assert(join(done, sep@) == done[0]);
                assert(s@ == start + join(done, sep@));
            } else {
                assert(s@ == before + sep@ + pieces@[i as int]@);
                assert(s@ == start + join(done, sep@));
            }
        }
        i += 1;
    }
    assert(pieces@.subrange(0, pieces@.len() as int) == pieces@);
}

/// `whole.fraction` with `places` fractional digits, for a fixed-point value
/// given in units of `10^-places` (e.g. `1.2` for 12 tenths).
pub open spec fn fixed_point(units: nat, places: nat) -> Seq<char>
    recommends
        places == 1 || places == 2,
{
    if places == 1 {
        decimal(units / 10) + seq!['.'] + seq![digit_char(units % 10)]
    } else {
        decimal(units / 100) + seq!['.'] + seq![digit_char((units % 100) / 10)] + seq![digit_char(units % 10)]
    }
}

/// Appends a fixed-point value with one or two fractional digits.
pub fn push_fixed_point(s: &mut String, units: usize, places: usize)
    requires
        places == 1 || places == 2,
    ensures
        final(s)@ == old(s)@ + fixed_point(units as nat, places as nat),
{
    proof {
        reveal_strlit(".");
    }
    if places == 1 {
        push_decimal(s, units / 10);
        s.append(".");
        s.append(digit_str(units % 10));
    } else {
        push_decimal(s, units / 100);
        s.append(".");
        s.append(digit_str((units % 100) / 10));
        s.append(digit_str(units % 10));
    }
}

} // verus!
