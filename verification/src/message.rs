//! Decimal rendering of counts and the fixed message texts that diagnostics
//! are built from, each with its exact character-level statement.
use vstd::prelude::*;

verus! {

use vstd::string::StringExecFns;

/// The decimal digit character for `d < 10`.
pub open spec fn dec_digit(d: nat) -> char {
    if d == 0 {
        '0'
    } else if d == 1 {
        '1'
    } else if d == 2 {
        '2'
    } else if d == 3 {
        '3'
    } else if d == 4 {
        '4'
    } else if d == 5 {
        '5'
    } else if d == 6 {
        '6'
    } else if d == 7 {
        '7'
    } else if d == 8 {
        '8'
    } else {
        '9'
    }
}

/// The usual decimal rendering of `n`, most significant digit first, no sign
/// and no leading zero (except for `n == 0` itself).
pub open spec fn dec_rep(n: nat) -> Seq<char>
    decreases n,
{
    if n < 10 {
        seq![dec_digit(n)]
    } else {
        dec_rep(n / 10).push(dec_digit(n % 10))
    }
}

fn digit_str(d: usize) -> (r: &'static str)
    requires
        d < 10,
    ensures
        r@ == seq![dec_digit(d as nat)],
{
    let r: &'static str = match d {
        0 => "0",
        1 => "1",
        2 => "2",
        3 => "3",
        4 => "4",
        5 => "5",
        6 => "6",
        7 => "7",
        8 => "8",
        _ => "9",
    };
    proof {
        reveal_strlit("0");
        reveal_strlit("1");
        reveal_strlit("2");
        reveal_strlit("3");
        reveal_strlit("4");
        reveal_strlit("5");
        reveal_strlit("6");
        reveal_strlit("7");
        reveal_strlit("8");
        reveal_strlit("9");
        assert(r@ =~= seq![dec_digit(d as nat)]);
    }
    r
}

/// Renders `n` in decimal, per [`dec_rep`].
pub fn usize_to_string(n: usize) -> (s: String)
    ensures
        s@ == dec_rep(n as nat),
    decreases n,
{
    if n < 10 {
        String::from_str(digit_str(n))
    } else {
        let mut s = usize_to_string(n / 10);
        s.append(digit_str(n % 10));
        proof {
            assert(dec_rep((n / 10) as nat) + seq![dec_digit((n % 10) as nat)] =~= dec_rep(
                n as nat,
            ));
        }
        s
    }
}

/// The advisory summary line: the true failure total and how many detailed
/// diagnostics the cap hid.
pub open spec fn advisory_text(total: nat, hidden: nat) -> Seq<char> {
    "Totally "@ + dec_rep(total) + " error(s) with "@ + dec_rep(hidden)
        + " hidden. You may configure this with --max-err"@
}

/// Builds [`advisory_text`].
pub fn advisory_message(total: usize, hidden: usize) -> (s: String)
    ensures
        s@ == advisory_text(total as nat, hidden as nat),
{
    let mut s = String::from_str("Totally ");
    let t = usize_to_string(total);
    s.append(t.as_str());
    s.append(" error(s) with ");
    let h = usize_to_string(hidden);
    s.append(h.as_str());
    s.append(" hidden. You may configure this with --max-err");
    s
}

/// The heading of the failed-reads summary: how many file reads failed.
pub open spec fn io_message_text(count: nat) -> Seq<char> {
    dec_rep(count) + " unsucceeded file read attempts!"@
}

/// Builds [`io_message_text`].
pub fn io_message(count: usize) -> (s: String)
    ensures
        s@ == io_message_text(count as nat),
{
    let mut s = usize_to_string(count);
    s.append(" unsucceeded file read attempts!");
    s
}

/// The help text of a walk-failure diagnostic.
pub open spec fn walk_help_text() -> Seq<char> {
    "Look for incorrect spellings or capitalisations. Also, check if the path leads to a DIRECTORY, a file won't work. Don't forget to ensure that all nodes in the path have proper permissions too."@
}

/// The reference page a walk-failure diagnostic points at.
pub open spec fn docs_url_text() -> Seq<char> {
    "https://www.sublimetext.com/docs/side_by_side.html"@
}

/// The help text of the failed-reads summary diagnostic.
pub open spec fn io_help_text() -> Seq<char> {
    "Please ensure that all nodes in the path have proper permissions."@
}

/// The help line of a parse diagnostic: the size of the offending file.
pub open spec fn parse_help_text(len: nat) -> Seq<char> {
    "File consists of "@ + dec_rep(len) + " byte(s)"@
}

/// Builds [`parse_help_text`].
pub fn parse_help(len: usize) -> (s: String)
    ensures
        s@ == parse_help_text(len as nat),
{
    let mut s = String::from_str("File consists of ");
    let l = usize_to_string(len);
    s.append(l.as_str());
    s.append(" byte(s)");
    s
}

} // verus!
