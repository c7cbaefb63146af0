//! Decimal text of integers, built character by character.
use vstd::prelude::*;
use vstd::string::StrSliceExecFns;

verus! {

/// The decimal digit for `d`.
pub open spec fn digit_char(d: nat) -> char {
    if d == 0 {
        '0'
    } else if d == 1 {
        '1'
    } else if d == 2 {
        '2'
    } else if d == 3 {
        '3'
    } else if d == 4 {
        '4'
    } else if d == 5 {
        '5'
    } else if d == 6 {
        '6'
    } else if d == 7 {
        '7'
    } else if d == 8 {
        '8'
    } else {
        '9'
    }
}

/// The decimal text of `n`, with no leading zero.
pub open spec fn nat_text(n: nat) -> Seq<char>
    decreases n,
{
    if n < 10 {
        seq![digit_char(n)]
    } else {
        nat_text(n / 10).push(digit_char(n % 10))
    }
}

/// The decimal text of `i`, with a `-` before a negative number.
pub open spec fn int_text(i: int) -> Seq<char> {
    if i < 0 {
        seq!['-'] + nat_text((-i) as nat)
    } else {
        nat_text(i as nat)
    }
}

/// Different digits have different characters, and none of them is `-`.
pub proof fn lemma_digit_char_injective(a: nat, b: nat)
    requires
        a < 10,
        b < 10,
    ensures
        digit_char(a) == digit_char(b) ==> a == b,
        digit_char(a) != '-',
{
}

/// The decimal text of a number is not empty and starts with a digit.
pub proof fn lemma_nat_text_first(n: nat)
    ensures
        nat_text(n).len() >= 1,
        nat_text(n)[0] != '-',
    decreases n,
{
    lemma_digit_char_injective(n % 10, 0);
    if n >= 10 {
        lemma_nat_text_first(n / 10);
    }
}

/// The decimal text of a number is made of digits only.
pub proof fn lemma_nat_text_digits(n: nat)
    ensures
        forall|k: int| 0 <= k < nat_text(n).len() ==> '0' <= #[trigger] nat_text(n)[k] <= '9',
    decreases n,
{
    if n >= 10 {
        lemma_nat_text_digits(n / 10);
        let t = nat_text(n / 10);
        assert forall|k: int| 0 <= k < nat_text(n).len() implies '0' <= #[trigger] nat_text(n)[k] <= '9' by {
            if k < t.len() {
                assert(nat_text(n)[k] == t[k]);
            }
        }
    }
}

/// Different numbers have different decimal texts.
pub proof fn lemma_nat_text_injective(a: nat, b: nat)
    requires
        nat_text(a) == nat_text(b),
    ensures
        a == b,
    decreases a,
{
    lemma_digit_char_injective(a % 10, b % 10);
    if a < 10 && b < 10 {
        assert(nat_text(a)[0] == digit_char(a));
        assert(nat_text(b)[0] == digit_char(b));
    } else if a < 10 {
        lemma_nat_text_first(b / 10);
        assert(nat_text(b).len() == nat_text(b / 10).len() + 1);
    } else if b < 10 {
        lemma_nat_text_first(a / 10);
        assert(nat_text(a).len() == nat_text(a / 10).len() + 1);
    } else {
        let ta = nat_text(a);
        let tb = nat_text(b);
        assert(ta.drop_last() =~= nat_text(a / 10));
        assert(tb.drop_last() =~= nat_text(b / 10));
        assert(ta.last() == digit_char(a % 10));
        assert(tb.last() == digit_char(b % 10));
        lemma_nat_text_injective(a / 10, b / 10);
    }
}

/// Different integers have different decimal texts.
pub proof fn lemma_int_text_injective(a: int, b: int)
    requires
        int_text(a) == int_text(b),
    ensures
        a == b,
{
    if a < 0 && b < 0 {
        let ta = nat_text((-a) as nat);
        let tb = nat_text((-b) as nat);
        assert(int_text(a).skip(1) =~= ta);
        assert(int_text(b).skip(1) =~= tb);
        lemma_nat_text_injective((-a) as nat, (-b) as nat);
    } else if a < 0 {
        lemma_nat_text_first(b as nat);
        assert(int_text(a)[0] == '-');
    } else if b < 0 {
        lemma_nat_text_first(a as nat);
        assert(int_text(b)[0] == '-');
    } else {
        lemma_nat_text_injective(a as nat, b as nat);
    }
}

/// Texts that share a prefix and a separator and end in the decimal texts
/// of two numbers are equal only when the numbers are.
pub proof fn lemma_numbered_text_injective(prefix: Seq<char>, a: nat, b: nat)
    requires
        prefix + nat_text(a) == prefix + nat_text(b),
    ensures
        a == b,
{
    assert((prefix + nat_text(a)).skip(prefix.len() as int) =~= nat_text(a));
    assert((prefix + nat_text(b)).skip(prefix.len() as int) =~= nat_text(b));
    lemma_nat_text_injective(a, b);
}

/// The digit character for a number below ten.
fn digit_of(d: u64) -> (c: char)
    requires
        d < 10,
    ensures
        c == digit_char(d as nat),
{
    if d == 0 {
        '0'
    } else if d == 1 {
        '1'
    } else if d == 2 {
        '2'
    } else if d == 3 {
        '3'
    } else if d == 4 {
        '4'
    } else if d == 5 {
        '5'
    } else if d == 6 {
        '6'
    } else if d == 7 {
        '7'
    } else if d == 8 {
        '8'
    } else {
        '9'
    }
}

/// Appends the decimal text of `n` to `out`.
pub fn push_nat_text(out: &mut Vec<char>, n: u64)
    ensures
        final(out)@ == old(out)@ + nat_text(n as nat),
    decreases n,
{
    if n < 10 {
        out.push(digit_of(n));
        proof {
            assert(nat_text(n as nat) == seq![digit_char(n as nat)]);
        }
    } else {
        push_nat_text(out, n / 10);
        out.push(digit_of(n % 10));
        proof {
            let a = old(out)@;
            assert(nat_text(n as nat) == nat_text((n / 10) as nat).push(digit_char((n % 10) as nat)));
            assert(a + nat_text((n / 10) as nat).push(digit_char((n % 10) as nat)) =~= (a + nat_text((n / 10) as nat)).push(digit_char((n % 10) as nat)));
        }
    }
}

/// Appends the decimal text of `i` to `out`.
pub fn push_int_text(out: &mut Vec<char>, i: i64)
    ensures
        final(out)@ == old(out)@ + int_text(i as int),
{
    if i < 0 {
        out.push('-');
        let magnitude: u64 = (0 - (i as i128)) as u64;
        push_nat_text(out, magnitude);
        proof {
            assert(old(out)@.push('-') + nat_text(magnitude as nat) =~= old(out)@ + (seq!['-'] + nat_text((-(i as int)) as nat)));
        }
    } else {
        push_nat_text(out, i as u64);
    }
}

/// Appends the characters of `s` to `out`.
pub fn push_str(out: &mut Vec<char>, s: &str)
    ensures
        final(out)@ == old(out)@ + s@,
{
    let n = s.unicode_len();
    let mut i: usize = 0;
    while i < n
        invariant
            n == s@.len(),
            i <= n,
            out@ == old(out)@ + s@.take(i as int),
        decreases n - i,
    {
        let c = s.get_char(i);
        out.push(c);
        proof {
            assert(s@.take(i as int + 1) =~= s@.take(i as int).push(c));
        }
        i += 1;
    }
    proof {
        assert(s@.take(n as int) =~= s@);
    }
}

} // verus!
