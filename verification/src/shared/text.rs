//! Text built by the library: decimal numerals and separated lists.

use vstd::prelude::*;
use vstd::string::StringExecFns;

verus! {

/// The character that writes the digit `d`.
pub open spec fn digit_char(d: nat) -> char
    recommends
        d < 10,
{
    seq!['0', '1', '2', '3', '4', '5', '6', '7', '8', '9'][d as int]
}

/// The decimal numeral of `n`: most significant digit first, no sign, no
/// leading zero, and `0` written as one digit.
pub open spec fn decimal(n: nat) -> Seq<char>
    decreases n,
{
    if n < 10 {
        seq![digit_char(n)]
    } else {
        decimal(n / 10).push(digit_char(n % 10))
    }
}

/// The items of `parts` in order, with `sep` between each two neighbours.
pub open spec fn joined(parts: Seq<Seq<char>>, sep: Seq<char>) -> Seq<char>
    decreases parts.len(),
{
    if parts.len() == 0 {
        Seq::<char>::empty()
    } else if parts.len() == 1 {
        parts[0]
    } else {
        joined(parts.drop_last(), sep) + sep + parts.last()
    }
}

/// The text of each item of `items`.
pub open spec fn texts(items: Seq<String>) -> Seq<Seq<char>> {
    Seq::new(items.len(), |i: int| items[i]@)
}

/// The text of `item`, where there is one.
pub open spec fn option_text(item: Option<String>) -> Option<Seq<char>> {
    match item {
        Some(text) => Some(text@),
        None => None,
    }
}

fn digit_text(d: u16) -> (s: &'static str)
    requires
        d < 10,
    ensures
        s@ == seq![digit_char(d as nat)],
{
    proof {
        reveal_strlit("0");
        reveal_strlit("1");
        reveal_strlit("2");
        reveal_strlit("3");
        reveal_strlit("4");
        reveal_strlit("5");
        reveal_strlit("6");
        reveal_strlit("7");
        reveal_strlit("8");
        reveal_strlit("9");
    }
    let s: &'static str = if d == 0 {
        "0"
    } else if d == 1 {
        "1"
    } else if d == 2 {
        "2"
    } else if d == 3 {
        "3"
    } else if d == 4 {
        "4"
    } else if d == 5 {
        "5"
    } else if d == 6 {
        "6"
    } else if d == 7 {
        "7"
    } else if d == 8 {
        "8"
    } else {
        "9"
    };
    assert(s@ =~= seq![digit_char(d as nat)]);
    s
}

/// Writes `n` in decimal.
pub fn decimal_text(n: u16) -> (s: String)
    ensures
        s@ == decimal(n as nat),
    decreases n,
{
    if n < 10 {
        String::from_str(digit_text(n))
    } else {
        let mut s = decimal_text(n / 10);
        s.append(digit_text(n % 10));
        assert(s@ =~= decimal((n / 10) as nat).push(digit_char((n % 10) as nat)));
        s
    }
}

/// Joins `parts` with `sep` between neighbours.
pub fn join(parts: &Vec<String>, sep: &str) -> (s: String)
    ensures
        s@ == joined(texts(parts@), sep@),
{
    let mut s = String::new();
    let mut i: usize = 0;
    while i < parts.len()
        invariant
            i <= parts.len(),
            s@ == joined(texts(parts@).take(i as int), sep@),
        decreases parts.len() - i,
    {
        let ghost before = texts(parts@).take(i as int);
        let ghost after = texts(parts@).take(i + 1);
        assert(after.drop_last() =~= before);
        assert(after.last() == parts@[i as int]@);
        if i > 0 {
            s.append(sep);
        }
        s.append(parts[i].as_str());
        assert(s@ =~= joined(after, sep@));
        i = i + 1;
    }
    assert(texts(parts@).take(parts.len() as int) =~= texts(parts@));
    s
}

} // verus!
