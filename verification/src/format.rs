//! Rendering of count rows: decimal representation, right-alignment in a
//! fixed display width, and the row formatter.

use vstd::prelude::*;

verus! {

use vstd::string::StrSliceExecFns;
use vstd::string::StringExecFns;
use crate::count::nat_row;

/// The decimal digit character for `d`.
pub open spec fn dec_digit(d: nat) -> char
    recommends
        d < 10,
{
    if d == 0 {
        '0'
    } else if d == 1 {
        '1'
    } else if d == 2 {
        '2'
    } else if d == 3 {
        '3'
    } else if d == 4 {
        '4'
    } else if d == 5 {
        '5'
    } else if d == 6 {
        '6'
    } else if d == 7 {
        '7'
    } else if d == 8 {
        '8'
    } else {
        '9'
    }
}

/// The decimal representation of `n`, without leading zeros (except for 0
/// itself).
pub open spec fn dec_rep(n: nat) -> Seq<char>
    decreases n,
{
    if n < 10 {
        seq![dec_digit(n)]
    } else {
        dec_rep(n / 10).push(dec_digit(n % 10))
    }
}

/// A run of `n` spaces.
pub open spec fn spaces(n: nat) -> Seq<char>
    decreases n,
{
    if n == 0 {
        Seq::empty()
    } else {
        spaces((n - 1) as nat).push(' ')
    }
}

/// `t` right-aligned in width `w`: spaces in front when `t` is shorter.
pub open spec fn pad_left(t: Seq<char>, w: nat) -> Seq<char> {
    if t.len() >= w {
        t
    } else {
        spaces((w - t.len()) as nat) + t
    }
}

/// The display width of each count: 6 when the row has several counts,
/// no padding when it has one.
pub open spec fn fmt_width(n: nat) -> nat {
    if n > 1 {
        6
    } else {
        0
    }
}

/// A rendered row: each count right-aligned in width `w`, each followed by
/// one space.
pub open spec fn row_text(counts: Seq<nat>, w: nat) -> Seq<char>
    decreases counts.len(),
{
    if counts.len() == 0 {
        Seq::empty()
    } else {
        row_text(counts.drop_last(), w) + pad_left(dec_rep(counts.last()), w) + seq![' ']
    }
}

fn digit_str(d: usize) -> (r: &'static str)
    requires
        d < 10,
    ensures
        r@ == seq![dec_digit(d as nat)],
{
    let r: &'static str = if d == 0 {
        "0"
    } else if d == 1 {
        "1"
    } else if d == 2 {
        "2"
    } else if d == 3 {
        "3"
    } else if d == 4 {
        "4"
    } else if d == 5 {
        "5"
    } else if d == 6 {
        "6"
    } else if d == 7 {
        "7"
    } else if d == 8 {
        "8"
    } else {
        "9"
    };
    proof {
        reveal_strlit("0");
        reveal_strlit("1");
        reveal_strlit("2");
        reveal_strlit("3");
        reveal_strlit("4");
        reveal_strlit("5");
        reveal_strlit("6");
        reveal_strlit("7");
        reveal_strlit("8");
        reveal_strlit("9");
        assert(r@ =~= seq![dec_digit(d as nat)]);
    }
    r
}

/// Renders `n` in decimal.
pub fn usize_to_string(n: usize) -> (r: String)
    ensures
        r@ == dec_rep(n as nat),
    decreases n,
{
    if n < 10 {
        let r = String::from_str(digit_str(n));
        proof {
            assert(r@ =~= dec_rep(n as nat));
        }
        r
    } else {
        let q = n / 10;
        let d = n % 10;
        assert(q < n);
        let mut r = usize_to_string(q);
        r.append(digit_str(d));
        proof {
            assert(r@ =~= dec_rep(n as nat));
        }
        r
    }
}

fn spaces_string(n: usize) -> (r: String)
    ensures
        r@ == spaces(n as nat),
{
    let mut r = String::new();
    let mut i: usize = 0;
    while i < n
        invariant
            i <= n,
            r@ == spaces(i as nat),
        decreases n - i,
    {
        r.append(" ");
        proof {
            reveal_strlit(" ");
            assert(r@ =~= spaces(i as nat + 1));
        }
        i = i + 1;
    }
    r
}

/// Renders `t` right-aligned in width `w`.
pub fn pad_left_str(t: &str, w: usize) -> (r: String)
    ensures
        r@ == pad_left(t@, w as nat),
{
    let tl = t.unicode_len();
    if tl >= w {
        String::from_str(t)
    } else {
        let mut r = spaces_string(w - tl);
        r.append(t);
        r
    }
}

/// Renders a count row: each count right-aligned (width 6 when the row has
/// several counts, unpadded otherwise), each followed by one space.
pub fn wc_fmt(counts: &Vec<usize>) -> (r: String)
    ensures
        r@ == row_text(nat_row(counts@), fmt_width(counts@.len())),
{
    let w: usize = if counts.len() > 1 {
        6
    } else {
        0
    };
    let mut r = String::new();
    let mut i: usize = 0;
    while i < counts.len()
        invariant
            i <= counts@.len(),
            w as nat == fmt_width(counts@.len()),
            r@ == row_text(nat_row(counts@).take(i as int), w as nat),
        decreases counts@.len() - i,
    {
        let num = usize_to_string(counts[i]);
        let padded = pad_left_str(num.as_str(), w);
        r.append(padded.as_str());
        r.append(" ");
        proof {
            reveal_strlit(" ");
            let nr = nat_row(counts@);
            assert(nr.take(i as int + 1).drop_last() =~= nr.take(i as int));
            assert(nr.take(i as int + 1).last() == counts@[i as int] as nat);
            assert(r@ =~= row_text(nr.take(i as int + 1), w as nat));
        }
        i = i + 1;
    }
    proof {
        assert(nat_row(counts@).take(counts@.len() as int) =~= nat_row(counts@));
    }
    r
}

} // verus!
