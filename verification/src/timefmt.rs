//! Rendering elapsed build times for the session's progress reports.

use vstd::prelude::*;
use vstd::string::StringExecFns;

verus! {

/// The decimal digit character for one digit value.
pub open spec fn digit_char(d: int) -> char {
    if d == 0 {
        '0'
    } else if d == 1 {
        '1'
    } else if d == 2 {
        '2'
    } else if d == 3 {
        '3'
    } else if d == 4 {
        '4'
    } else if d == 5 {
        '5'
    } else if d == 6 {
        '6'
    } else if d == 7 {
        '7'
    } else if d == 8 {
        '8'
    } else {
        '9'
    }
}

/// The decimal rendering of a number, most significant digit first, with
/// no leading zero except for the number zero itself.
pub open spec fn dec_chars(n: nat) -> Seq<char>
    decreases n,
{
    if n < 10 {
        seq![digit_char(n as int)]
    } else {
        dec_chars(n / 10).push(digit_char((n % 10) as int))
    }
}

/// A millisecond count rendered to exactly three digits.
pub open spec fn millis_chars(m: nat) -> Seq<char> {
    if m < 10 {
        seq!['0', '0'] + dec_chars(m)
    } else if m < 100 {
        seq!['0'] + dec_chars(m)
    } else {
        dec_chars(m)
    }
}

/// `<secs>.<millis> seconds`, the millisecond part three digits wide.
pub open spec fn duration_chars(secs: nat, millis: nat) -> Seq<char> {
    dec_chars(secs) + seq!['.'] + millis_chars(millis) + seq![
        ' ',
        's',
        'e',
        'c',
        'o',
        'n',
        'd',
        's',
    ]
}

fn digit_str(d: u64) -> (r: &'static str)
    requires
        d < 10,
    ensures
        r@ == seq![digit_char(d as int)],
{
    proof {
        reveal_strlit("0");
        reveal_strlit("1");
        reveal_strlit("2");
        reveal_strlit("3");
        reveal_strlit("4");
        reveal_strlit("5");
        reveal_strlit("6");
        reveal_strlit("7");
        reveal_strlit("8");
        reveal_strlit("9");
    }
    let r = if d == 0 {
        "0"
    } else if d == 1 {
        "1"
    } else if d == 2 {
        "2"
    } else if d == 3 {
        "3"
    } else if d == 4 {
        "4"
    } else if d == 5 {
        "5"
    } else if d == 6 {
        "6"
    } else if d == 7 {
        "7"
    } else if d == 8 {
        "8"
    } else {
        "9"
    };
    proof {
        assert(r@ =~= seq![digit_char(d as int)]);
    }
    r
}

/// The decimal rendering of a number.
pub fn dec_string(n: u64) -> (r: String)
    ensures
        r@ == dec_chars(n as nat),
    decreases n,
{
    if n < 10 {
        digit_str(n).to_owned()
    } else {
        proof {
            assert(n / 10 < n) by (nonlinear_arith)
                requires
                    n >= 10,
            ;
        }
        let mut s = dec_string(n / 10);
        s.append(digit_str(n % 10));
        proof {
            assert(dec_chars((n / 10) as nat).push(digit_char((n % 10) as int)) =~= dec_chars(
                (n / 10) as nat,
            ) + seq![digit_char((n % 10) as int)]);
        }
        s
    }
}

/// Render an elapsed time of whole seconds and milliseconds as
/// `<secs>.<millis> seconds`, the millisecond part three digits wide.
pub fn duration_print(secs: u64, millis: u32) -> (r: String)
    requires
        millis < 1000,
    ensures
        r@ == duration_chars(secs as nat, millis as nat),
{
    proof {
        reveal_strlit(".");
        reveal_strlit("0");
        reveal_strlit("00");
        reveal_strlit(" seconds");
    }
    let mut s = dec_string(secs);
    s.append(".");
    if millis < 10 {
        s.append("00");
    } else if millis < 100 {
        s.append("0");
    }
    let m = dec_string(millis as u64);
    s.append(m.as_str());
    s.append(" seconds");
    proof {
        assert(s@ =~= duration_chars(secs as nat, millis as nat));
    }
    s
}

} // verus!
