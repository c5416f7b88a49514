//! Decimal rendering of integers and human-readable size strings.
//!
//! Sizes at or above 1 KiB / 1 MiB / 1 GiB are shown with two decimals and a
//! unit suffix; smaller sizes as a plain byte count. The fractional part is
//! computed with integer quotient and remainder so that no overflow can occur
//! for large byte counts.

use vstd::prelude::*;

verus! {

/// The decimal digit character for `d` (meaningful for `d < 10`).
pub open spec fn digit_char(d: nat) -> char {
    if d == 0 {
        '0'
    } else if d == 1 {
        '1'
    } else if d == 2 {
        '2'
    } else if d == 3 {
        '3'
    } else if d == 4 {
        '4'
    } else if d == 5 {
        '5'
    } else if d == 6 {
        '6'
    } else if d == 7 {
        '7'
    } else if d == 8 {
        '8'
    } else {
        '9'
    }
}

/// The usual decimal representation of `n`, without leading zeros
/// (a single `'0'` for zero).
pub open spec fn dec_rep(n: nat) -> Seq<char>
    decreases n,
{
    if n < 10 {
        seq![digit_char(n)]
    } else {
        dec_rep(n / 10) + seq![digit_char(n % 10)]
    }
}

fn digit_str(d: u64) -> (r: &'static str)
    requires
        d < 10,
    ensures
        r@ == seq![digit_char(d as nat)],
{
    proof {
        reveal_strlit("0");
        reveal_strlit("1");
        reveal_strlit("2");
        reveal_strlit("3");
        reveal_strlit("4");
        reveal_strlit("5");
        reveal_strlit("6");
        reveal_strlit("7");
        reveal_strlit("8");
        reveal_strlit("9");
    }
    let r = if d == 0 {
        "0"
    } else if d == 1 {
        "1"
    } else if d == 2 {
        "2"
    } else if d == 3 {
        "3"
    } else if d == 4 {
        "4"
    } else if d == 5 {
        "5"
    } else if d == 6 {
        "6"
    } else if d == 7 {
        "7"
    } else if d == 8 {
        "8"
    } else {
        "9"
    };
    proof {
        assert(r@ =~= seq![digit_char(d as nat)]);
    }
    r
}

/// Renders `n` in decimal.
pub fn u64_to_string(n: u64) -> (r: String)
    ensures
        r@ == dec_rep(n as nat),
    decreases n,
{
    if n < 10 {
        let r = digit_str(n).to_owned();
        proof {
            assert(r@ =~= dec_rep(n as nat));
        }
        r
    } else {
        let mut s = u64_to_string(n / 10);
        s.append(digit_str(n % 10));
        proof {
            assert(s@ =~= dec_rep(n as nat));
        }
        s
    }
}

/// Quotient of `size` by `div` with two rounded decimal places, e.g.
/// `2048 / 1024` is rendered `"2.00"`.
pub open spec fn two_dec_rep(size: nat, div: nat) -> Seq<char>
    recommends
        div >= 2,
{
    let q = size / div;
    let h = (size % div * 100 + div / 2) / div;
    if h == 100 {
        dec_rep(q + 1) + ".00"@
    } else {
        dec_rep(q) + "."@ + seq![digit_char(h / 10), digit_char(h % 10)]
    }
}

fn two_dec_string(size: u64, div: u64) -> (r: String)
    requires
        2 <= div <= 1073741824,
    ensures
        r@ == two_dec_rep(size as nat, div as nat),
{
    let q = size / div;
    let rem = size % div;
    assert(rem < div);
    assert(rem * 100 + div / 2 < 101 * div) by (nonlinear_arith)
        requires
            rem < div,
            div >= 2,
    ;
    assert(rem * 100 + div / 2 <= 0xffff_ffff_ffff_ffff) by (nonlinear_arith)
        requires
            rem < div,
            div <= 1073741824,
    ;
    let h = (rem * 100 + div / 2) / div;
    assert(h <= 100) by (nonlinear_arith)
        requires
            h == (rem * 100 + div / 2) / (div as int),
            rem * 100 + div / 2 < 101 * div,
            div >= 2,
    ;
    if h == 100 {
        assert(q < 0xffff_ffff_ffff_ffff) by (nonlinear_arith)
            requires
                q == size / div,
                div >= 2,
        ;
        let mut s = u64_to_string(q + 1);
        s.append(".00");
        proof {
            assert(s@ =~= two_dec_rep(size as nat, div as nat));
        }
        s
    } else {
        let mut s = u64_to_string(q);
        s.append(".");
        s.append(digit_str(h / 10));
        s.append(digit_str(h % 10));
        proof {
            assert(s@ =~= two_dec_rep(size as nat, div as nat));
        }
        s
    }
}

/// The size string for a byte count: two-decimal GiB / MiB / KiB above the
/// respective thresholds, else an integer count of bytes.
pub open spec fn size_str_spec(size: nat) -> Seq<char> {
    if size >= 1073741824 {
        two_dec_rep(size, 1073741824) + "Gb"@
    } else if size >= 1048576 {
        two_dec_rep(size, 1048576) + "Mb"@
    } else if size >= 1024 {
        two_dec_rep(size, 1024) + "Kb"@
    } else {
        dec_rep(size) + " bytes"@
    }
}

/// Renders a byte count with a fitting unit.
pub fn get_file_size(size: u64) -> (r: String)
    ensures
        r@ == size_str_spec(size as nat),
{
    if size >= 1073741824 {
        let mut s = two_dec_string(size, 1073741824);
        s.append("Gb");
        s
    } else if size >= 1048576 {
        let mut s = two_dec_string(size, 1048576);
        s.append("Mb");
        s
    } else if size >= 1024 {
        let mut s = two_dec_string(size, 1024);
        s.append("Kb");
        s
    } else {
        let mut s = u64_to_string(size);
        s.append(" bytes");
        s
    }
}

} // verus!
