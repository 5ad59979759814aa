//! Building the texts of messages.

use vstd::prelude::*;
use vstd::string::*;
use crate::path::{FilePath, PathModel, paths_view, render_path};

verus! {

/// The numeral of a digit.
pub open spec fn digit_text(d: nat) -> Seq<char> {
    if d == 0 {
        "0"@
    } else if d == 1 {
        "1"@
    } else if d == 2 {
        "2"@
    } else if d == 3 {
        "3"@
    } else if d == 4 {
        "4"@
    } else if d == 5 {
        "5"@
    } else if d == 6 {
        "6"@
    } else if d == 7 {
        "7"@
    } else if d == 8 {
        "8"@
    } else {
        "9"@
    }
}

/// The decimal numeral of a number.
pub open spec fn decimal(n: nat) -> Seq<char>
    decreases n,
{
    if n < 10 {
        digit_text(n)
    } else {
        decimal(n / 10) + digit_text(n % 10)
    }
}

/// Writes a number in decimal.
pub fn decimal_text(n: usize) -> (r: String)
    ensures
        r@ == decimal(n as nat),
    decreases n,
{
    let d = n % 10;
    let digit = if d == 0 {
        "0"
    } else if d == 1 {
        "1"
    } else if d == 2 {
        "2"
    } else if d == 3 {
        "3"
    } else if d == 4 {
        "4"
    } else if d == 5 {
        "5"
    } else if d == 6 {
        "6"
    } else if d == 7 {
        "7"
    } else if d == 8 {
        "8"
    } else {
        "9"
    };
    if n < 10 {
        String::from_str(digit)
    } else {
        let mut s = decimal_text(n / 10);
        s.append(digit);
        s
    }
}

/// The spellings of the paths, one to a line.
pub open spec fn join_lines(paths: Seq<PathModel>) -> Seq<char>
    decreases paths.len(),
{
    if paths.len() == 0 {
        Seq::<char>::empty()
    } else if paths.len() == 1 {
        render_path(paths[0])
    } else {
        join_lines(paths.drop_last()) + "\n"@ + render_path(paths.last())
    }
}

/// Writes the paths, one to a line.
pub fn lines_of(paths: &Vec<FilePath>) -> (r: String)
    ensures
        r@ == join_lines(paths_view(paths@)),
{
    let mut out = String::new();
    let ghost all = paths_view(paths@);
    let mut i: usize = 0;
    assert(all.take(0) =~= Seq::<PathModel>::empty());
    while i < paths.len()
        invariant
            i <= paths@.len(),
            all == paths_view(paths@),
            out@ == join_lines(all.take(i as int)),
        decreases paths@.len() - i,
    {
        let ghost prev = all.take(i as int);
        let ghost next = all.take(i as int + 1);
        proof {
            assert(next.drop_last() =~= prev);
            assert(next.last() == paths@[i as int]@);
        }
        if i > 0 {
            out.append("\n");
        }
        out.append(paths[i].to_string().as_str());
        proof {
            if i == 0 {
                assert(out@ =~= render_path(next[0]));
            }
        }
        i += 1;
    }
    assert(all.take(i as int) =~= all);
    out
}

} // verus!
