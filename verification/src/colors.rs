//! ANSI styling of terminal text.

use vstd::prelude::*;
use crate::text::{decimal, digit_char};

verus! {

/// The sequence that ends any styling.
pub open spec fn reset_seq() -> Seq<char> {
    seq!['\x1b', '[', '0', 'm']
}

/// `s` in bold.
pub open spec fn bold_seq(s: Seq<char>) -> Seq<char> {
    seq!['\x1b', '[', '1', 'm'] + s + reset_seq()
}

/// `s` in the color with ANSI code `code`.
pub open spec fn color_seq(code: u8, s: Seq<char>) -> Seq<char> {
    seq!['\x1b', '['] + decimal(code as nat) + seq!['m'] + s + reset_seq()
}

/// `s` in bold and in the color with ANSI code `code`.
pub open spec fn bold_color_seq(code: u8, s: Seq<char>) -> Seq<char> {
    seq!['\x1b', '[', '1', ';'] + decimal(code as nat) + seq!['m'] + s + reset_seq()
}

fn digit_text(d: u64) -> (r: &'static str)
    requires
        d < 10,
    ensures
        r@ == seq![digit_char(d as nat)],
{
    let r = if d == 0 {
        "0"
    } else if d == 1 {
        "1"
    } else if d == 2 {
        "2"
    } else if d == 3 {
        "3"
    } else if d == 4 {
        "4"
    } else if d == 5 {
        "5"
    } else if d == 6 {
        "6"
    } else if d == 7 {
        "7"
    } else if d == 8 {
        "8"
    } else {
        "9"
    };
    proof {
        reveal_strlit("0");
        reveal_strlit("1");
        reveal_strlit("2");
        reveal_strlit("3");
        reveal_strlit("4");
        reveal_strlit("5");
        reveal_strlit("6");
        reveal_strlit("7");
        reveal_strlit("8");
        reveal_strlit("9");
    }
    assert(r@ =~= seq![digit_char(d as nat)]);
    r
}

/// The decimal text of `n`.
pub fn decimal_text(n: u64) -> (r: String)
    ensures
        r@ == decimal(n as nat),
    decreases n,
{
    if n < 10 {
        digit_text(n).to_owned()
    } else {
        let mut s = decimal_text(n / 10);
        s.append(digit_text(n % 10));
        s
    }
}

/// `s` in bold.
pub fn bold(s: &str) -> (r: String)
    ensures
        r@ == bold_seq(s@),
{
    let mut r = "\x1b[1m".to_owned();
    r.append(s);
    r.append("\x1b[0m");
    proof {
        reveal_strlit("\x1b[1m");
        reveal_strlit("\x1b[0m");
        assert("\x1b[1m"@ =~= seq!['\x1b', '[', '1', 'm']);
        assert("\x1b[0m"@ =~= reset_seq());
    }
    assert(r@ =~= bold_seq(s@));
    r
}

/// `s` in the color with ANSI code `code`.
pub fn color(code: u8, s: &str) -> (r: String)
    ensures
        r@ == color_seq(code, s@),
{
    let mut r = "\x1b[".to_owned();
    let d = decimal_text(code as u64);
    r.append(d.as_str());
    r.append("m");
    r.append(s);
    r.append("\x1b[0m");
    proof {
        reveal_strlit("\x1b[");
        reveal_strlit("m");
        reveal_strlit("\x1b[0m");
        assert("\x1b["@ =~= seq!['\x1b', '[']);
        assert("m"@ =~= seq!['m']);
        assert("\x1b[0m"@ =~= reset_seq());
    }
    assert(r@ =~= color_seq(code, s@));
    r
}

/// `s` in bold and in the color with ANSI code `code`.
pub fn bold_color(code: u8, s: &str) -> (r: String)
    ensures
        r@ == bold_color_seq(code, s@),
{
    let mut r = "\x1b[1;".to_owned();
    let d = decimal_text(code as u64);
    r.append(d.as_str());
    r.append("m");
    r.append(s);
    r.append("\x1b[0m");
    proof {
        reveal_strlit("\x1b[1;");
        reveal_strlit("m");
        reveal_strlit("\x1b[0m");
        assert("\x1b[1;"@ =~= seq!['\x1b', '[', '1', ';']);
        assert("m"@ =~= seq!['m']);
        assert("\x1b[0m"@ =~= reset_seq());
    }
    assert(r@ =~= bold_color_seq(code, s@));
    r
}

} // verus!
