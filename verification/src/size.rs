//! Sizes in binary units, in whole numbers or with one decimal place.

use vstd::prelude::*;
use vstd::string::*;

verus! {

/// The character of the decimal digit `d`.
pub open spec fn digit_char(d: nat) -> char {
    if d == 0 {
        '0'
    } else if d == 1 {
        '1'
    } else if d == 2 {
        '2'
    } else if d == 3 {
        '3'
    } else if d == 4 {
        '4'
    } else if d == 5 {
        '5'
    } else if d == 6 {
        '6'
    } else if d == 7 {
        '7'
    } else if d == 8 {
        '8'
    } else {
        '9'
    }
}

/// `n` in decimal, without leading zeros.
pub open spec fn decimal(n: nat) -> Seq<char>
    decreases n,
{
    if n < 10 {
        seq![digit_char(n)]
    } else {
        decimal(n / 10).push(digit_char(n % 10))
    }
}

/// The size of the largest unit that `bytes` fills: 1, 1024, ... up to 1024^4.
pub open spec fn unit_divisor(bytes: nat) -> nat {
    if bytes < 1024 {
        1
    } else if bytes < 1048576 {
        1024
    } else if bytes < 1073741824 {
        1048576
    } else if bytes < 1099511627776 {
        1073741824
    } else {
        1099511627776
    }
}

/// The name of that unit.
pub open spec fn unit_name(bytes: nat) -> Seq<char> {
    if bytes < 1024 {
        "B"@
    } else if bytes < 1048576 {
        "KB"@
    } else if bytes < 1073741824 {
        "MB"@
    } else if bytes < 1099511627776 {
        "GB"@
    } else {
        "TB"@
    }
}

/// `bytes / d` in tenths, rounded to the nearest tenth, a tie to the even one.
pub open spec fn rounded_tenths(bytes: nat, d: nat) -> nat
    recommends
        d > 0,
{
    let q = (bytes * 10) / d;
    let r = (bytes * 10) % d;
    if 2 * r > d || (2 * r == d && q % 2 == 1) {
        q + 1
    } else {
        q
    }
}

/// A size for display: the number of units, a space and the unit's name. A whole
/// number of units is written without a decimal point, any other with one
/// decimal place.
pub open spec fn size_text(bytes: nat) -> Seq<char> {
    let d = unit_divisor(bytes);
    if bytes % d == 0 {
        decimal(bytes / d) + " "@ + unit_name(bytes)
    } else {
        let t = rounded_tenths(bytes, d);
        decimal(t / 10) + "."@ + decimal(t % 10) + " "@ + unit_name(bytes)
    }
}

fn digit_str(d: u128) -> (r: &'static str)
    requires
        d < 10,
    ensures
        r@ == seq![digit_char(d as nat)],
{
    proof {
        reveal_strlit("0");
        reveal_strlit("1");
        reveal_strlit("2");
        reveal_strlit("3");
        reveal_strlit("4");
        reveal_strlit("5");
        reveal_strlit("6");
        reveal_strlit("7");
        reveal_strlit("8");
        reveal_strlit("9");
    }
    let r = if d == 0 {
        "0"
    } else if d == 1 {
        "1"
    } else if d == 2 {
        "2"
    } else if d == 3 {
        "3"
    } else if d == 4 {
        "4"
    } else if d == 5 {
        "5"
    } else if d == 6 {
        "6"
    } else if d == 7 {
        "7"
    } else if d == 8 {
        "8"
    } else {
        "9"
    };
    proof {
        assert(r@ =~= seq![digit_char(d as nat)]);
    }
    r
}

/// Writes `n` in decimal.
pub fn decimal_string(n: u128) -> (r: String)
    ensures
        r@ == decimal(n as nat),
    decreases n,
{
    if n < 10 {
        digit_str(n).to_owned()
    } else {
        let mut out = decimal_string(n / 10);
        let last = digit_str(n % 10);
        out.append(last);
        proof {
            assert(out@ =~= decimal((n / 10) as nat).push(digit_char((n % 10) as nat)));
        }
        out
    }
}

/// Formats a size in bytes for display, in the largest binary unit that it
/// fills (B, KB, MB, GB, TB; each 1024 of the one before).
pub fn format_size(bytes: u64) -> (r: String)
    ensures
        r@ == size_text(bytes as nat),
{
    let d: u64 = if bytes < 1024 {
        1
    } else if bytes < 1048576 {
        1024
    } else if bytes < 1073741824 {
        1048576
    } else if bytes < 1099511627776 {
        1073741824
    } else {
        1099511627776
    };
    let unit: &'static str = if bytes < 1024 {
        "B"
    } else if bytes < 1048576 {
        "KB"
    } else if bytes < 1073741824 {
        "MB"
    } else if bytes < 1099511627776 {
        "GB"
    } else {
        "TB"
    };
    if bytes % d == 0 {
        let whole: u64 = bytes / d;
        let mut out = decimal_string(whole as u128);
        out.append(" ");
        out.append(unit);
        out
    } else {
        let scaled: u128 = (bytes as u128) * 10;
        let q: u128 = scaled / (d as u128);
        let r: u128 = scaled % (d as u128);
        let t: u128 = if 2 * r > d as u128 || (2 * r == d as u128 && q % 2 == 1) {
            q + 1
        } else {
            q
        };
        let mut out = decimal_string(t / 10);
        out.append(".");
        let tenth = decimal_string(t % 10);
        out.append(tenth.as_str());
        out.append(" ");
        out.append(unit);
        out
    }
}

} // verus!
