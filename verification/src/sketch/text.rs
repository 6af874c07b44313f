//! Numbers as text.
//!
//! Lengths are whole micrometres and are written out in millimetres, with as
//! many decimals as it takes and no more: 210000 reads `210`, 200 reads `0.2`
//! and -1250 reads `-1.25`.

use vstd::prelude::*;
use vstd::string::*;

verus! {

/// The character of the decimal digit `d`.
pub open spec fn digit(d: int) -> char {
    if d == 0 {
        '0'
    } else if d == 1 {
        '1'
    } else if d == 2 {
        '2'
    } else if d == 3 {
        '3'
    } else if d == 4 {
        '4'
    } else if d == 5 {
        '5'
    } else if d == 6 {
        '6'
    } else if d == 7 {
        '7'
    } else if d == 8 {
        '8'
    } else {
        '9'
    }
}

/// The decimal digit that `c` shows, if it shows one.
pub open spec fn digit_value(c: char) -> Option<int> {
    if c == '0' {
        Some(0)
    } else if c == '1' {
        Some(1)
    } else if c == '2' {
        Some(2)
    } else if c == '3' {
        Some(3)
    } else if c == '4' {
        Some(4)
    } else if c == '5' {
        Some(5)
    } else if c == '6' {
        Some(6)
    } else if c == '7' {
        Some(7)
    } else if c == '8' {
        Some(8)
    } else if c == '9' {
        Some(9)
    } else {
        None
    }
}

/// `n` in decimal digits, without leading zeros; 0 reads `0`.
pub open spec fn digits(n: nat) -> Seq<char>
    decreases n,
{
    if n < 10 {
        seq![digit(n as int)]
    } else {
        digits(n / 10).push(digit((n % 10) as int))
    }
}

/// `n` in decimal digits, with a minus sign in front where it is negative.
pub open spec fn signed(n: int) -> Seq<char> {
    if n < 0 {
        seq!['-'] + digits((-n) as nat)
    } else {
        digits(n as nat)
    }
}

/// The decimals of `f` thousandths, for `f` from 1 to 999: three digits less
/// the zeros at the end.
pub open spec fn decimals(f: nat) -> Seq<char> {
    if f % 100 == 0 {
        seq![digit((f / 100) as int)]
    } else if f % 10 == 0 {
        seq![digit((f / 100) as int), digit(((f / 10) % 10) as int)]
    } else {
        seq![digit((f / 100) as int), digit(((f / 10) % 10) as int), digit((f % 10) as int)]
    }
}

/// `u` micrometres in millimetres: the whole millimetres, then a point and
/// the decimals where there are any.
pub open spec fn unsigned_mm(u: nat) -> Seq<char> {
    if u % 1000 == 0 {
        digits(u / 1000)
    } else {
        digits(u / 1000) + seq!['.'] + decimals(u % 1000)
    }
}

/// `v` micrometres in millimetres, with a minus sign in front where `v` is
/// negative.
pub open spec fn mm(v: int) -> Seq<char> {
    if v < 0 {
        seq!['-'] + unsigned_mm((-v) as nat)
    } else {
        unsigned_mm(v as nat)
    }
}

/// The number that the decimal digits `ds` show; a character that is no
/// digit counts as 0.
pub open spec fn value(ds: Seq<char>) -> nat
    decreases ds.len(),
{
    if ds.len() == 0 {
        0
    } else {
        let last = match digit_value(ds.last()) {
            Some(d) => d as nat,
            None => 0,
        };
        value(ds.drop_last()) * 10 + last
    }
}

/// Every character of `ds` is a decimal digit.
pub open spec fn all_digits(ds: Seq<char>) -> bool {
    forall|i: int| 0 <= i < ds.len() ==> digit_value(#[trigger] ds[i]) is Some
}

/// Reading back what was written gives the number that was written: the
/// digits of `n` are digits, there is at least one, and their value is `n`.
pub proof fn lemma_value_of_digits(n: nat)
    ensures
        digits(n).len() > 0,
        all_digits(digits(n)),
        value(digits(n)) == n,
    decreases n,
{
    if n < 10 {
        let s = digits(n);
        assert(s.drop_last() =~= Seq::<char>::empty());
        assert(value(s.drop_last()) == 0);
    } else {
        lemma_value_of_digits(n / 10);
        let front = digits(n / 10);
        let s = digits(n);
        assert(s.drop_last() =~= front);
        assert(s.last() == digit((n % 10) as int));
        assert forall|i: int| 0 <= i < s.len() implies digit_value(#[trigger] s[i]) is Some by {
            if i < front.len() {
                assert(s[i] == front[i]);
            }
        }
    }
}

/// The text of the decimal digit `d`.
fn digit_str(d: u8) -> (s: &'static str)
    requires
        d < 10,
    ensures
        s@ == seq![digit(d as int)],
{
    proof {
        reveal_strlit("0");
        reveal_strlit("1");
        reveal_strlit("2");
        reveal_strlit("3");
        reveal_strlit("4");
        reveal_strlit("5");
        reveal_strlit("6");
        reveal_strlit("7");
        reveal_strlit("8");
        reveal_strlit("9");
    }
    let s = if d == 0 {
        "0"
    } else if d == 1 {
        "1"
    } else if d == 2 {
        "2"
    } else if d == 3 {
        "3"
    } else if d == 4 {
        "4"
    } else if d == 5 {
        "5"
    } else if d == 6 {
        "6"
    } else if d == 7 {
        "7"
    } else if d == 8 {
        "8"
    } else {
        "9"
    };
    assert(s@ =~= seq![digit(d as int)]);
    s
}

/// Appends `n` in decimal digits.
pub fn push_digits(out: &mut String, n: u64)
    ensures
        final(out)@ == old(out)@ + digits(n as nat),
    decreases n,
{
    if n >= 10 {
        push_digits(out, n / 10);
    }
    out.append(digit_str((n % 10) as u8));
    assert(out@ =~= old(out)@ + digits(n as nat));
}

/// Appends `n` in decimal digits, with its sign where it is negative.
pub fn push_signed(out: &mut String, n: i64)
    ensures
        final(out)@ == old(out)@ + signed(n as int),
{
    if n < 0 {
        proof {
            reveal_strlit("-");
        }
        out.append("-");
        push_digits(out, magnitude(n));
        assert(out@ =~= old(out)@ + signed(n as int));
    } else {
        push_digits(out, n as u64);
    }
}

/// The distance of `n` from 0.
fn magnitude(n: i64) -> (m: u64)
    ensures
        m == if n < 0 {
            -n
        } else {
            n as int
        },
{
    if n < 0 {
        (-(n + 1)) as u64 + 1
    } else {
        n as u64
    }
}

/// Appends `v` micrometres in millimetres.
pub fn push_mm(out: &mut String, v: i64)
    ensures
        final(out)@ == old(out)@ + mm(v as int),
{
    let u: u64 = magnitude(v);
    if v < 0 {
        proof {
            reveal_strlit("-");
        }
        out.append("-");
    }
    let ghost signed_part = out@;
    push_digits(out, u / 1000);
    let f: u64 = u % 1000;
    if f != 0 {
        proof {
            reveal_strlit(".");
        }
        out.append(".");
        out.append(digit_str((f / 100) as u8));
        if f % 100 != 0 {
            out.append(digit_str(((f / 10) % 10) as u8));
            if f % 10 != 0 {
                out.append(digit_str((f % 10) as u8));
            }
        }
    }
    assert(out@ =~= signed_part + unsigned_mm(u as nat));
    assert(out@ =~= old(out)@ + mm(v as int));
}

/// The characters of `s`, one by one.
pub fn chars_of(s: &str) -> (v: Vec<char>)
    ensures
        v@ == s@,
{
    let mut v: Vec<char> = Vec::new();
    for c in it: s.chars()
        invariant
            v@ == it.history(),
            it.seq() == s@,
    {
        v.push(c);
    }
    assert(v@ =~= s@);
    v
}

} // verus!
