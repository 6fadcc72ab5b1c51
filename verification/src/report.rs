//! Per-port output lines.
//!
//! Each probe outcome is collapsed at the reporting boundary into open
//! versus closed: an established connection is reported `"<port>: open"`
//! unconditionally, every other outcome is reported `"<port>: closed"` in
//! verbose mode and suppressed otherwise. Port numbers are rendered in
//! decimal by verified code.

use crate::engine::PortOutcome;
use vstd::prelude::*;

verus! {

/// The decimal digit character for `d` (meaningful for `d < 10`).
pub open spec fn dec_digit(d: nat) -> char {
    if d == 0 {
        '0'
    } else if d == 1 {
        '1'
    } else if d == 2 {
        '2'
    } else if d == 3 {
        '3'
    } else if d == 4 {
        '4'
    } else if d == 5 {
        '5'
    } else if d == 6 {
        '6'
    } else if d == 7 {
        '7'
    } else if d == 8 {
        '8'
    } else {
        '9'
    }
}

/// Decimal rendering of `n`: most significant digit first, no leading
/// zeros (zero itself renders as `"0"`).
pub open spec fn dec_str(n: nat) -> Seq<char>
    decreases n,
{
    if n < 10 {
        seq![dec_digit(n)]
    } else {
        dec_str(n / 10).push(dec_digit(n % 10))
    }
}

/// The one-character string for a single decimal digit.
fn digit_str(d: u16) -> (s: &'static str)
    requires
        d < 10,
    ensures
        s@ == seq![dec_digit(d as nat)],
{
    proof {
        reveal_strlit("0");
        reveal_strlit("1");
        reveal_strlit("2");
        reveal_strlit("3");
        reveal_strlit("4");
        reveal_strlit("5");
        reveal_strlit("6");
        reveal_strlit("7");
        reveal_strlit("8");
        reveal_strlit("9");
    }
    let s = if d == 0 {
        "0"
    } else if d == 1 {
        "1"
    } else if d == 2 {
        "2"
    } else if d == 3 {
        "3"
    } else if d == 4 {
        "4"
    } else if d == 5 {
        "5"
    } else if d == 6 {
        "6"
    } else if d == 7 {
        "7"
    } else if d == 8 {
        "8"
    } else {
        "9"
    };
    proof {
        assert(s@ =~= seq![dec_digit(d as nat)]);
    }
    s
}

/// Renders a port number in decimal.
pub fn u16_to_dec(n: u16) -> (s: String)
    ensures
        s@ == dec_str(n as nat),
    decreases n,
{
    if n < 10 {
        String::from_str(digit_str(n))
    } else {
        let mut s = u16_to_dec(n / 10);
        s.append(digit_str(n % 10));
        proof {
            assert(dec_str((n / 10) as nat) + seq![dec_digit((n % 10) as nat)] =~= dec_str(
                n as nat,
            ));
        }
        s
    }
}

/// The line printed for one probe, or `None` when it is suppressed: an open
/// port is always reported, a non-open outcome only in verbose mode.
pub open spec fn line_for(port: u16, outcome: PortOutcome, verbose: bool) -> Option<Seq<char>> {
    if outcome.is_open() {
        Some(dec_str(port as nat) + ": open"@)
    } else if verbose {
        Some(dec_str(port as nat) + ": closed"@)
    } else {
        None
    }
}

/// Classifies one probe outcome into its printed line: `"<port>: open"`
/// for an established connection; `"<port>: closed"` for a refused, failed
/// or timed-out attempt, and only in verbose mode.
pub fn report_line(port: u16, outcome: PortOutcome, verbose: bool) -> (r: Option<String>)
    ensures
        r is Some <==> line_for(port, outcome, verbose) is Some,
        r is Some ==> r->0@ == line_for(port, outcome, verbose)->0,
{
    match outcome {
        PortOutcome::Open => Some(u16_to_dec(port).concat(": open")),
        _ => if verbose {
            Some(u16_to_dec(port).concat(": closed"))
        } else {
            None
        },
    }
}

/// The single line printed once every probe has completed; nothing else is
/// printed after it.
pub fn completion_line() -> (s: String)
    ensures
        s@ == "[eyes] Finished scan"@,
{
    String::from_str("[eyes] Finished scan")
}

} // verus!
