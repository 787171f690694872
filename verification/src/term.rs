//! ANSI colouring of terminal output.
//!
//! Whether colour is on depends on the environment (`NO_COLOR`, `TERM`);
//! callers decide that and pass it in.
use vstd::prelude::*;

verus! {

broadcast use vstd::string::group_string_axioms;

/// `s` wrapped in the ANSI escape for the style `code` when `on`, else `s`.
pub open spec fn painted(code: Seq<char>, s: Seq<char>, on: bool) -> Seq<char> {
    if on {
        seq!['\u{1b}', '['] + code + seq!['m'] + s + seq!['\u{1b}', '[', '0', 'm']
    } else {
        s
    }
}

/// Wraps `s` in the ANSI style `code` when `on`.
pub fn paint(code: &str, s: &str, on: bool) -> (r: String)
    ensures
        r@ == painted(code@, s@, on),
{
    if on {
        let mut out = String::from_str("\u{1b}[");
        out.append(code);
        out.append("m");
        out.append(s);
        out.append("\u{1b}[0m");
        proof {
            reveal_strlit("\u{1b}[");
            reveal_strlit("m");
            reveal_strlit("\u{1b}[0m");
        }
        assert(out@ =~= painted(code@, s@, on));
        out
    } else {
        String::from_str(s)
    }
}

/// `s` in bold.
pub fn bold(s: &str, on: bool) -> (r: String)
    ensures
        r@ == painted(seq!['1'], s@, on),
{
    proof {
        reveal_strlit("1");
    }
    paint("1", s, on)
}

/// `s` dimmed.
pub fn dim(s: &str, on: bool) -> (r: String)
    ensures
        r@ == painted(seq!['2'], s@, on),
{
    proof {
        reveal_strlit("2");
    }
    paint("2", s, on)
}

/// `s` in green.
pub fn green(s: &str, on: bool) -> (r: String)
    ensures
        r@ == painted(seq!['3', '2'], s@, on),
{
    proof {
        reveal_strlit("32");
    }
    paint("32", s, on)
}

/// `s` in yellow.
pub fn yellow(s: &str, on: bool) -> (r: String)
    ensures
        r@ == painted(seq!['3', '3'], s@, on),
{
    proof {
        reveal_strlit("33");
    }
    paint("33", s, on)
}

/// `s` in red.
pub fn red(s: &str, on: bool) -> (r: String)
    ensures
        r@ == painted(seq!['3', '1'], s@, on),
{
    proof {
        reveal_strlit("31");
    }
    paint("31", s, on)
}

/// `s` in cyan.
pub fn cyan(s: &str, on: bool) -> (r: String)
    ensures
        r@ == painted(seq!['3', '6'], s@, on),
{
    proof {
        reveal_strlit("36");
    }
    paint("36", s, on)
}

/// `s` in magenta.
pub fn magenta(s: &str, on: bool) -> (r: String)
    ensures
        r@ == painted(seq!['3', '5'], s@, on),
{
    proof {
        reveal_strlit("35");
    }
    paint("35", s, on)
}

} // verus!
