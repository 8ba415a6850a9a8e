//! Building the text that displays the objects of the library.

use vstd::prelude::*;

use crate::feature::Feature;

verus! {

/// The strings of `q` with `sep` between each two of them.
pub open spec fn join(q: Seq<Seq<char>>, sep: Seq<char>) -> Seq<char>
    decreases q.len(),
{
    if q.len() == 0 {
        Seq::empty()
    } else if q.len() == 1 {
        q[0]
    } else {
        join(q.drop_last(), sep) + sep + q.last()
    }
}

/// The models of a vector of features.
pub open spec fn features_view(v: Seq<Feature>) -> Seq<Seq<char>> {
    v.map_values(|f: Feature| f@)
}

/// Append the features of `items`, with `sep` between each two of them.
pub fn append_joined(out: &mut String, items: &Vec<Feature>, sep: &str)
    ensures
        final(out)@ == old(out)@ + join(features_view(items@), sep@),
{
    let ghost q = features_view(items@);
    let mut i: usize = 0;
    while i < items.len()
        invariant
            i <= items.len(),
            q == features_view(items@),
            out@ == old(out)@ + join(q.take(i as int), sep@),
        decreases items.len() - i,
    {
        assert(q.take(i + 1).drop_last() =~= q.take(i as int));
        assert(q.take(i + 1).last() == items@[i as int]@);
        if i > 0 {
            out.append(sep);
        } else {
            assert(q.take(i as int) =~= Seq::<Seq<char>>::empty());
        }
        out.append(items[i].0.as_str());
        i = i + 1;
    }
    assert(q.take(i as int) =~= q);
}

/// The decimal digit `d`.
pub open spec fn digit_char(d: nat) -> char {
    if d == 0 {
        '0'
    } else if d == 1 {
        '1'
    } else if d == 2 {
        '2'
    } else if d == 3 {
        '3'
    } else if d == 4 {
        '4'
    } else if d == 5 {
        '5'
    } else if d == 6 {
        '6'
    } else if d == 7 {
        '7'
    } else if d == 8 {
        '8'
    } else {
        '9'
    }
}

/// The decimal numeral of `n`, without leading zeros.
pub open spec fn decimal(n: nat) -> Seq<char>
    decreases n,
{
    if n < 10 {
        seq![digit_char(n)]
    } else {
        decimal(n / 10).push(digit_char(n % 10))
    }
}

/// The one-character string of the digit `d`.
fn digit_str(d: usize) -> (r: &'static str)
    requires
        d < 10,
    ensures
        r@ == seq![digit_char(d as nat)],
{
    proof {
        reveal_strlit("0");
        reveal_strlit("1");
        reveal_strlit("2");
        reveal_strlit("3");
        reveal_strlit("4");
        reveal_strlit("5");
        reveal_strlit("6");
        reveal_strlit("7");
        reveal_strlit("8");
        reveal_strlit("9");
    }
    if d == 0 {
        "0"
    } else if d == 1 {
        "1"
    } else if d == 2 {
        "2"
    } else if d == 3 {
        "3"
    } else if d == 4 {
        "4"
    } else if d == 5 {
        "5"
    } else if d == 6 {
        "6"
    } else if d == 7 {
        "7"
    } else if d == 8 {
        "8"
    } else {
        "9"
    }
}

/// Append the decimal numeral of `n`.
pub fn append_decimal(out: &mut String, n: usize)
    ensures
        final(out)@ == old(out)@ + decimal(n as nat),
    decreases n,
{
    if n >= 10 {
        append_decimal(out, n / 10);
    }
    out.append(digit_str(n % 10));
    assert(decimal(n as nat) == if n < 10 {
        seq![digit_char(n as nat)]
    } else {
        decimal((n / 10) as nat).push(digit_char((n % 10) as nat))
    });
}

} // verus!
