//! Table of contents entries: dot leaders and page numbers

use vstd::prelude::*;

use crate::document::{LEFT_MARGIN, RIGHT_MARGIN};

verus! {

/// The character of a decimal digit
pub open spec fn digit_char(d: int) -> char {
    if d == 0 {
        '0'
    } else if d == 1 {
        '1'
    } else if d == 2 {
        '2'
    } else if d == 3 {
        '3'
    } else if d == 4 {
        '4'
    } else if d == 5 {
        '5'
    } else if d == 6 {
        '6'
    } else if d == 7 {
        '7'
    } else if d == 8 {
        '8'
    } else {
        '9'
    }
}

/// Decimal digits of a natural number, without leading zeros
pub open spec fn digits(n: nat) -> Seq<char>
    decreases n,
{
    if n < 10 {
        seq![digit_char(n as int)]
    } else {
        digits(n / 10).push(digit_char((n % 10) as int))
    }
}

/// Decimal form of an integer, with a minus sign if negative
pub open spec fn decimal(i: int) -> Seq<char> {
    if i < 0 {
        seq!['-'] + digits((-i) as nat)
    } else {
        digits(i as nat)
    }
}

fn digit_str(d: u64) -> (r: &'static str)
    requires
        d < 10,
    ensures
        r@ == seq![digit_char(d as int)],
{
    proof {
        reveal_strlit("0");
        reveal_strlit("1");
        reveal_strlit("2");
        reveal_strlit("3");
        reveal_strlit("4");
        reveal_strlit("5");
        reveal_strlit("6");
        reveal_strlit("7");
        reveal_strlit("8");
        reveal_strlit("9");
    }
    let r = if d == 0 {
        "0"
    } else if d == 1 {
        "1"
    } else if d == 2 {
        "2"
    } else if d == 3 {
        "3"
    } else if d == 4 {
        "4"
    } else if d == 5 {
        "5"
    } else if d == 6 {
        "6"
    } else if d == 7 {
        "7"
    } else if d == 8 {
        "8"
    } else {
        "9"
    };
    assert(r@ =~= seq![digit_char(d as int)]);
    r
}

fn push_digits(s: &mut String, n: u64)
    ensures
        final(s)@ == old(s)@ + digits(n as nat),
    decreases n,
{
    if n >= 10 {
        push_digits(s, n / 10);
    }
    s.append(digit_str(n % 10));
    assert(final(s)@ =~= old(s)@ + digits(n as nat));
}

/// The decimal form of a page number
pub fn decimal_string(i: i32) -> (r: String)
    ensures
        r@ == decimal(i as int),
{
    let mut s = String::new();
    if i < 0 {
        proof {
            reveal_strlit("-");
        }
        s.append("-");
        let m = -(i as i64);
        push_digits(&mut s, m as u64);
        assert(s@ =~= decimal(i as int));
    } else {
        push_digits(&mut s, i as u64);
        assert(s@ =~= decimal(i as int));
    }
    s
}

/// Width of a table of contents line, from margin to margin
pub open spec fn toc_width() -> int {
    RIGHT_MARGIN - LEFT_MARGIN + 1
}

/// `k` copies of ". "
pub open spec fn dots(k: nat) -> Seq<char>
    decreases k,
{
    if k == 0 {
        Seq::empty()
    } else {
        dots((k - 1) as nat) + seq!['.', ' ']
    }
}

/// The dot leader and page number that end a table of contents entry
/// whose text is `n` characters wide.  The leader starts one space after
/// odd-width text and two after even-width text, and a page number of
/// even width is preceded by a space, so that the dots of all entries
/// line up; the leader fills what is left of the line.
pub open spec fn leader(n: int, page_no: int) -> Seq<char> {
    let num = decimal(page_no);
    let p = num.len() as int;
    let before: Seq<char> = if n % 2 == 1 {
        seq![' ']
    } else {
        seq![' ', ' ']
    };
    let after: Seq<char> = if p % 2 == 0 {
        seq![' ']
    } else {
        Seq::empty()
    };
    let remaining = toc_width() - n - p - before.len();
    let k: nat = if remaining > 0 {
        (remaining / 2) as nat
    } else {
        0
    };
    before + dots(k) + after + num
}

/// The dot leader and page number for an entry of `n` characters
pub fn leader_string(n: usize, page_no: i32) -> (r: String)
    ensures
        r@ == leader(n as int, page_no as int),
{
    proof {
        reveal_strlit(" ");
        reveal_strlit("  ");
        reveal_strlit(". ");
    }
    let num = decimal_string(page_no);
    let p = num.as_str().unicode_len();
    let mut s = String::new();
    let b: usize = if n % 2 == 1 {
        s.append(" ");
        1
    } else {
        s.append("  ");
        2
    };
    let ghost head = s@;
    let line_length = (RIGHT_MARGIN - LEFT_MARGIN + 1) as i128;
    let remaining: i128 = line_length - n as i128 - p as i128 - b as i128;
    let k: usize = if remaining > 0 {
        (remaining / 2) as usize
    } else {
        0
    };
    let mut t: usize = 0;
    while t < k
        invariant
            t <= k,
            s@ == head + dots(t as nat),
        decreases k - t,
    {
        proof {
            reveal_strlit(". ");
        }
        assert(". "@ =~= seq!['.', ' ']);
        s.append(". ");
        t = t + 1;
        assert(s@ =~= head + dots(t as nat));
    }
    assert(" "@ =~= seq![' ']);
    assert("  "@ =~= seq![' ', ' ']);
    if p % 2 == 0 {
        s.append(" ");
    }
    s.append(num.as_str());
    assert(s@ =~= leader(n as int, page_no as int));
    s
}

} // verus!
