//! Rendering of a search result into the printed report: numbered
//! match lines, or a single notice when nothing matched.

use vstd::prelude::*;

verus! {

/// The digit character for a value below ten.
pub open spec fn digit_char(d: nat) -> char {
    ((48 + d) as u8) as char
}

/// The decimal digits of `n`, most significant first.
pub open spec fn decimal_seq(n: nat) -> Seq<char>
    decreases n,
{
    if n < 10 {
        seq![digit_char(n)]
    } else {
        decimal_seq(n / 10) + seq![digit_char(n % 10)]
    }
}

/// The report line for match number `n`: the text `Match <n>: `
/// followed by the matching line.
pub open spec fn match_line(n: nat, line: Seq<char>) -> Seq<char> {
    "Match "@ + decimal_seq(n) + ": "@ + line
}

/// The whole report: one line per match, numbered from one in their
/// given order, or the no-match notice alone.
pub open spec fn render_spec(results: Seq<Seq<char>>) -> Seq<Seq<char>> {
    if results.len() == 0 {
        seq!["No matches found."@]
    } else {
        Seq::new(results.len(), |i: int| match_line((i + 1) as nat, results[i]))
    }
}

fn digit_str(d: usize) -> (r: &'static str)
    requires
        d < 10,
    ensures
        r@ == seq![digit_char(d as nat)],
{
    let r: &'static str = match d {
        0 => "0",
        1 => "1",
        2 => "2",
        3 => "3",
        4 => "4",
        5 => "5",
        6 => "6",
        7 => "7",
        8 => "8",
        _ => "9",
    };
    proof {
        reveal_strlit("0");
        reveal_strlit("1");
        reveal_strlit("2");
        reveal_strlit("3");
        reveal_strlit("4");
        reveal_strlit("5");
        reveal_strlit("6");
        reveal_strlit("7");
        reveal_strlit("8");
        reveal_strlit("9");
        assert(r@ =~= seq![digit_char(d as nat)]);
    }
    r
}

fn decimal_string(n: usize) -> (r: String)
    ensures
        r@ == decimal_seq(n as nat),
    decreases n,
{
    if n < 10 {
        String::from_str(digit_str(n))
    } else {
        let mut s = decimal_string(n / 10);
        s.append(digit_str(n % 10));
        s
    }
}

/// Builds the printed report for a search result: the notice
/// `No matches found.` when it is empty, else `Match <n>: <line>` for
/// each match, numbered from one in their given order.
pub fn render(results: &Vec<&str>) -> (out: Vec<String>)
    ensures
        out.deep_view() == render_spec(results.deep_view()),
{
    let mut out: Vec<String> = Vec::new();
    if results.len() == 0 {
        out.push(String::from_str("No matches found."));
        proof {
            assert(out.deep_view() =~= seq!["No matches found."@]);
        }
        return out;
    }
    let mut i: usize = 0;
    while i < results.len()
        invariant
            0 <= i <= results@.len(),
            out.deep_view().len() == i,
            forall|k: int|
                0 <= k < i ==> out.deep_view()[k] == match_line(
                    (k + 1) as nat,
                    results.deep_view()[k],
                ),
        decreases results@.len() - i,
    {
        let mut line = String::from_str("Match ");
        let num = decimal_string(i + 1);
        line.append(num.as_str());
        line.append(": ");
        line.append(results[i]);
        let ghost prev = out.deep_view();
        out.push(line);
        proof {
            assert(out.deep_view() =~= prev.push(line@));
            assert(line@ == match_line((i + 1) as nat, results.deep_view()[i as int]));
        }
        i = i + 1;
    }
    proof {
        assert(out.deep_view() =~= render_spec(results.deep_view()));
    }
    out
}

} // verus!
