//! Rendering a set as text: a bracketed, comma-separated list of
//! decimal numerals, such as `[1, 2]`.

use vstd::prelude::*;
use vstd::string::StringExecFns;
use crate::set::{SmolSet, SetMode};

verus! {

/// The character for one decimal digit.
pub open spec fn spec_digit(d: int) -> char {
    if d == 0 {
        '0'
    } else if d == 1 {
        '1'
    } else if d == 2 {
        '2'
    } else if d == 3 {
        '3'
    } else if d == 4 {
        '4'
    } else if d == 5 {
        '5'
    } else if d == 6 {
        '6'
    } else if d == 7 {
        '7'
    } else if d == 8 {
        '8'
    } else {
        '9'
    }
}

/// The decimal numeral of `n`, most significant digit first, with no
/// leading zeroes (and `0` written as one digit).
pub open spec fn spec_dec(n: nat) -> Seq<char>
    decreases n,
{
    if n < 10 {
        seq![spec_digit(n as int)]
    } else {
        spec_dec(n / 10).push(spec_digit((n % 10) as int))
    }
}

/// The digit characters of a digit sequence read back to front: the
/// numeral of a number whose digits were collected least significant
/// first.
spec fn chars_rev(ds: Seq<u64>) -> Seq<char>
    decreases ds.len(),
{
    if ds.len() == 0 {
        Seq::empty()
    } else {
        seq![spec_digit(ds.last() as int)] + chars_rev(ds.drop_last())
    }
}

/// Reading the digits back to front can also peel off the front
/// digit: its character comes last.
proof fn lemma_chars_rev_first(ds: Seq<u64>)
    requires
        ds.len() > 0,
    ensures
        chars_rev(ds) == chars_rev(ds.drop_first()) + seq![spec_digit(ds.first() as int)],
    decreases ds.len(),
{
    if ds.len() == 1 {
        assert(ds.drop_last() =~= ds.drop_first());
        assert(chars_rev(ds) =~= chars_rev(ds.drop_first()) + seq![
            spec_digit(ds.first() as int),
        ]);
    } else {
        lemma_chars_rev_first(ds.drop_last());
        assert(ds.drop_last().drop_first() =~= ds.drop_first().drop_last());
        assert(ds.drop_first().last() == ds.last());
        assert(chars_rev(ds) =~= chars_rev(ds.drop_first()) + seq![
            spec_digit(ds.first() as int),
        ]);
    }
}

/// One decimal digit as text.
fn digit_str(d: u64) -> (r: &'static str)
    requires
        d < 10,
    ensures
        r@ == seq![spec_digit(d as int)],
{
    proof {
        reveal_strlit("0");
        reveal_strlit("1");
        reveal_strlit("2");
        reveal_strlit("3");
        reveal_strlit("4");
        reveal_strlit("5");
        reveal_strlit("6");
        reveal_strlit("7");
        reveal_strlit("8");
        reveal_strlit("9");
    }
    match d {
        0 => "0",
        1 => "1",
        2 => "2",
        3 => "3",
        4 => "4",
        5 => "5",
        6 => "6",
        7 => "7",
        8 => "8",
        _ => "9",
    }
}

/// The decimal numeral of `x` as a string.
fn u64_to_dec(x: u64) -> (s: String)
    ensures
        s@ == spec_dec(x as nat),
{
    let mut digits: Vec<u64> = Vec::new();
    digits.push(x % 10);
    let mut n: u64 = x / 10;
    proof {
        assert(digits@ =~= seq![x % 10]);
        assert(chars_rev(digits@) =~= seq![spec_digit((x % 10) as int)]) by {
            reveal_with_fuel(chars_rev, 2);
            assert(digits@.drop_last() =~= Seq::<u64>::empty());
        }
        if n > 0 {
            assert(spec_dec(x as nat) == spec_dec((x as nat) / 10).push(
                spec_digit(((x as nat) % 10) as int),
            ));
            assert(spec_dec(x as nat) =~= spec_dec(n as nat) + chars_rev(digits@));
        } else {
            assert(spec_dec(x as nat) =~= chars_rev(digits@));
        }
    }
    while n > 0
        invariant
            digits@.len() >= 1,
            forall|j: int| 0 <= j < digits@.len() ==> digits@[j] < 10,
            n > 0 ==> spec_dec(x as nat) == spec_dec(n as nat) + chars_rev(digits@),
            n == 0 ==> spec_dec(x as nat) == chars_rev(digits@),
        decreases n,
    {
        let d = n % 10;
        let ghost pre = digits@;
        digits.push(d);
        let m = n / 10;
        proof {
            assert(digits@.drop_last() =~= pre);
            if m > 0 {
                assert(spec_dec(n as nat) + chars_rev(pre) =~= spec_dec(m as nat) + chars_rev(
                    digits@,
                ));
            } else {
                assert(spec_dec(n as nat) + chars_rev(pre) =~= chars_rev(digits@));
            }
        }
        n = m;
    }
    let mut s = String::new();
    let mut i: usize = digits.len();
    while i > 0
        invariant
            i <= digits@.len(),
            forall|j: int| 0 <= j < digits@.len() ==> digits@[j] < 10,
            spec_dec(x as nat) == chars_rev(digits@),
            s@ == chars_rev(digits@.skip(i as int)),
        decreases i,
    {
        let d = digits[i - 1];
        s.append(digit_str(d));
        proof {
            lemma_chars_rev_first(digits@.skip(i - 1));
            assert(digits@.skip(i - 1).drop_first() =~= digits@.skip(i as int));
            assert(digits@.skip(i - 1).first() == digits@[i - 1]);
        }
        i = i - 1;
    }
    proof {
        assert(digits@.skip(0) =~= digits@);
    }
    s
}

/// The textual form of the elements: decimal numerals separated by
/// `", "`.
pub open spec fn spec_render_elems(s: Seq<u64>) -> Seq<char>
    decreases s.len(),
{
    if s.len() == 0 {
        Seq::empty()
    } else if s.len() == 1 {
        spec_dec(s[0] as nat)
    } else {
        spec_render_elems(s.drop_last()) + seq![',', ' '] + spec_dec(s.last() as nat)
    }
}

/// The textual form of a set whose elements read in the order of `s`:
/// the elements' text between square brackets.
pub open spec fn spec_render(s: Seq<u64>) -> Seq<char> {
    seq!['['] + spec_render_elems(s) + seq![']']
}

impl SmolSet {
    /// Renders the elements as a bracketed, comma-separated list of
    /// decimal numerals, such as `[1, 2]`: in insertion order in
    /// stack mode, in an arbitrary order in heap mode.  The exact
    /// text is not contractual across representations.
    pub fn debug_string(&self) -> (s: String)
        ensures
            self.spec_mode() == SetMode::Stack ==> s@ == spec_render(self.spec_order()),
            exists|q: Seq<u64>|
                q.no_duplicates() && q.to_set() == self@ && s@ == spec_render(q),
    {
        let v = self.elems_vec();
        proof {
            reveal_strlit("[");
            reveal_strlit("]");
            reveal_strlit(", ");
        }
        let mut s = String::from_str("[");
        proof {
            assert(s@ =~= seq!['['] + spec_render_elems(v@.take(0)));
        }
        let mut i: usize = 0;
        while i < v.len()
            invariant
                i <= v@.len(),
                s@ == seq!['['] + spec_render_elems(v@.take(i as int)),
            decreases v@.len() - i,
        {
            if i > 0 {
                s.append(", ");
            }
            let d = u64_to_dec(v[i]);
            s.append(d.as_str());
            proof {
                reveal_strlit(", ");
                assert(v@.take(i + 1).drop_last() =~= v@.take(i as int));
                assert(v@.take(i + 1).last() == v@[i as int]);
                if i == 0 {
                    assert(s@ =~= seq!['['] + spec_render_elems(v@.take(i + 1)));
                } else {
                    assert(s@ =~= seq!['['] + spec_render_elems(v@.take(i + 1)));
                }
            }
            i += 1;
        }
        s.append("]");
        proof {
            assert(v@.take(v@.len() as int) =~= v@);
            assert(s@ =~= spec_render(v@));
        }
        s
    }
}

} // verus!
