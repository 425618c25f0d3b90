//! Decimal notation for integers, as text.

use vstd::prelude::*;

verus! {

/// The character that writes the digit `d`.
pub open spec fn digit(d: int) -> char {
    if d == 0 {
        '0'
    } else if d == 1 {
        '1'
    } else if d == 2 {
        '2'
    } else if d == 3 {
        '3'
    } else if d == 4 {
        '4'
    } else if d == 5 {
        '5'
    } else if d == 6 {
        '6'
    } else if d == 7 {
        '7'
    } else if d == 8 {
        '8'
    } else {
        '9'
    }
}

/// Whether `c` is one of the ten digits.
pub open spec fn is_digit(c: char) -> bool {
    exists|d: int| 0 <= d < 10 && c == #[trigger] digit(d)
}

/// A natural number in decimal notation, without leading zeros.
pub open spec fn decimal_nat(n: nat) -> Seq<char>
    decreases n,
{
    if n < 10 {
        seq![digit(n as int)]
    } else {
        decimal_nat(n / 10).push(digit((n % 10) as int))
    }
}

/// An integer in decimal notation: a minus sign before a negative number.
pub open spec fn decimal(v: int) -> Seq<char> {
    if v < 0 {
        seq!['-'] + decimal_nat((-v) as nat)
    } else {
        decimal_nat(v as nat)
    }
}

/// Decimal notation is never empty and holds digits only.
pub proof fn lemma_decimal_nat_digits(n: nat)
    ensures
        decimal_nat(n).len() >= 1,
        n >= 10 ==> decimal_nat(n).len() >= 2,
        forall|i: int| 0 <= i < decimal_nat(n).len() ==> is_digit(#[trigger] decimal_nat(n)[i]),
    decreases n,
{
    if n < 10 {
        assert(decimal_nat(n)[0] == digit(n as int));
    } else {
        lemma_decimal_nat_digits(n / 10);
        let shorter = decimal_nat(n / 10);
        let last = digit((n % 10) as int);
        assert forall|i: int| 0 <= i < decimal_nat(n).len() implies is_digit(
            #[trigger] decimal_nat(n)[i],
        ) by {
            if i < shorter.len() {
                assert(decimal_nat(n)[i] == shorter[i]);
            } else {
                assert(decimal_nat(n)[i] == last);
            }
        }
    }
}

/// Two natural numbers with the same decimal notation are the same number.
pub proof fn lemma_decimal_nat_injective(a: nat, b: nat)
    requires
        decimal_nat(a) == decimal_nat(b),
    ensures
        a == b,
    decreases a,
{
    lemma_decimal_nat_digits(a);
    lemma_decimal_nat_digits(b);
    if a < 10 {
        assert(decimal_nat(a).len() == 1);
        assert(b < 10);
        assert(decimal_nat(a)[0] == digit(a as int));
        assert(decimal_nat(b)[0] == digit(b as int));
    } else {
        assert(b >= 10);
        let da = decimal_nat(a / 10);
        let db = decimal_nat(b / 10);
        assert(da == decimal_nat(a).drop_last());
        assert(db == decimal_nat(b).drop_last());
        assert(decimal_nat(a).last() == digit((a % 10) as int));
        assert(decimal_nat(b).last() == digit((b % 10) as int));
        lemma_decimal_nat_injective(a / 10, b / 10);
    }
}

/// The first character of an integer's notation is a digit or the minus
/// sign, and the notation is never empty.
pub proof fn lemma_decimal_first(v: int)
    ensures
        decimal(v).len() >= 1,
        is_digit(decimal(v)[0]) || decimal(v)[0] == '-',
        v >= 0 ==> is_digit(decimal(v)[0]),
        v < 0 ==> decimal(v)[0] == '-',
{
    if v < 0 {
        lemma_decimal_nat_digits((-v) as nat);
    } else {
        lemma_decimal_nat_digits(v as nat);
    }
}

/// Two integers with the same decimal notation are the same integer.
pub proof fn lemma_decimal_injective(a: int, b: int)
    requires
        decimal(a) == decimal(b),
    ensures
        a == b,
{
    lemma_decimal_first(a);
    lemma_decimal_first(b);
    assert(!is_digit('-')) by {
        assert forall|d: int| 0 <= d < 10 implies '-' != #[trigger] digit(d) by {}
    }
    if a < 0 {
        assert(b < 0);
        let ma = decimal_nat((-a) as nat);
        let mb = decimal_nat((-b) as nat);
        assert(ma == decimal(a).subrange(1, decimal(a).len() as int));
        assert(mb == decimal(b).subrange(1, decimal(b).len() as int));
        lemma_decimal_nat_injective((-a) as nat, (-b) as nat);
    } else {
        assert(b >= 0);
        lemma_decimal_nat_injective(a as nat, b as nat);
    }
}

/// The text of one digit.
fn digit_text(d: u8) -> (r: &'static str)
    requires
        d < 10,
    ensures
        r@ == seq![digit(d as int)],
{
    proof {
        reveal_strlit("0");
        reveal_strlit("1");
        reveal_strlit("2");
        reveal_strlit("3");
        reveal_strlit("4");
        reveal_strlit("5");
        reveal_strlit("6");
        reveal_strlit("7");
        reveal_strlit("8");
        reveal_strlit("9");
    }
    let r = if d == 0 {
        "0"
    } else if d == 1 {
        "1"
    } else if d == 2 {
        "2"
    } else if d == 3 {
        "3"
    } else if d == 4 {
        "4"
    } else if d == 5 {
        "5"
    } else if d == 6 {
        "6"
    } else if d == 7 {
        "7"
    } else if d == 8 {
        "8"
    } else {
        "9"
    };
    assert(r@ =~= seq![digit(d as int)]);
    r
}

/// The digits that `taken` holds, least significant first, read as text.
spec fn written(taken: Seq<u8>) -> Seq<char> {
    Seq::new(taken.len(), |i: int| digit(taken[taken.len() - 1 - i] as int))
}

/// Appends the decimal notation of `n` to `out`.
pub fn push_decimal_u64(out: &mut String, n: u64)
    ensures
        final(out)@ == old(out)@ + decimal_nat(n as nat),
{
    let mut taken: Vec<u8> = Vec::new();
    taken.push((n % 10) as u8);
    let mut rest: u64 = n / 10;
    assert(written(taken@) =~= seq![digit((n % 10) as int)]);
    while rest > 0
        invariant
            taken.len() >= 1,
            forall|i: int| 0 <= i < taken.len() ==> taken[i] < 10,
            decimal_nat(n as nat) == (if rest == 0 {
                Seq::<char>::empty()
            } else {
                decimal_nat(rest as nat)
            }) + written(taken@),
        decreases rest,
    {
        let d = (rest % 10) as u8;
        let ghost before = taken@;
        taken.push(d);
        proof {
            let lead = if rest / 10 == 0 {
                Seq::<char>::empty()
            } else {
                decimal_nat((rest / 10) as nat)
            };
            assert(decimal_nat(rest as nat) =~= lead + seq![digit(d as int)]);
            assert(written(taken@) =~= seq![digit(d as int)] + written(before));
            assert(decimal_nat(n as nat) =~= lead + written(taken@));
        }
        rest = rest / 10;
    }
    assert(decimal_nat(n as nat) =~= written(taken@));
    let mut i: usize = taken.len();
    while i > 0
        invariant
            i <= taken.len(),
            forall|j: int| 0 <= j < taken.len() ==> taken[j] < 10,
            out@ == old(out)@ + written(taken@).subrange(0, taken.len() - i),
        decreases i,
    {
        i = i - 1;
        let ghost before = out@;
        out.append(digit_text(taken[i]));
        proof {
            let w = written(taken@);
            let k = taken.len() - 1 - i;
            assert(w[k] == digit(taken[i as int] as int));
            assert(w.subrange(0, k + 1) =~= w.subrange(0, k) + seq![w[k]]);
            assert(out@ =~= old(out)@ + w.subrange(0, k + 1));
        }
    }
    assert(written(taken@).subrange(0, taken.len() as int) =~= written(taken@));
}

/// Appends the decimal notation of `v` to `out`.
pub fn push_decimal_i64(out: &mut String, v: i64)
    ensures
        final(out)@ == old(out)@ + decimal(v as int),
{
    if v < 0 {
        proof {
            reveal_strlit("-");
        }
        out.append("-");
        assert("-"@ =~= seq!['-']);
        let magnitude: u64 = (-(v as i128)) as u64;
        push_decimal_u64(out, magnitude);
        assert(out@ =~= old(out)@ + decimal(v as int));
    } else {
        push_decimal_u64(out, v as u64);
    }
}

} // verus!
