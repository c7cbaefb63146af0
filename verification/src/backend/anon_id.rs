use vstd::prelude::*;
use crate::ast::chars::string_from_chars;
use crate::text::{int_text, nat_text, push_int_text, lemma_int_text_injective, lemma_nat_text_digits};

verus! {

/// The name that carries the number `n`: `anon.` and the decimal text of `n`.
pub open spec fn anon_name(n: int) -> Seq<char> {
    seq!['a', 'n', 'o', 'n', '.'] + int_text(n)
}

/// Names that carry different numbers differ: as a counter's number grows
/// by one at each call, no name it hands out repeats.
pub proof fn lemma_anon_names_distinct(a: int, b: int)
    requires
        a != b,
    ensures
        anon_name(a) != anon_name(b),
{
    if anon_name(a) == anon_name(b) {
        assert(anon_name(a).skip(5) =~= int_text(a));
        assert(anon_name(b).skip(5) =~= int_text(b));
        lemma_int_text_injective(a, b);
    }
}

/// Hands out the names `anon.1`, `anon.2`, and so on.
pub struct AnonCounter {
    next: i32,
}

impl AnonCounter {
    /// The number the next name carries.
    pub closed spec fn next_id(&self) -> int {
        self.next as int
    }

    /// A counter whose first name is `anon.1`.
    pub fn new() -> (r: Self)
        ensures
            r.next_id() == 1,
    {
        Self { next: 1 }
    }

    /// The next name, `anon.` followed by the counter; the counter moves on.
    pub fn next_str(&mut self) -> (r: String)
        requires
            old(self).next_id() < i32::MAX,
        ensures
            r@ == anon_name(old(self).next_id()),
            !r@.contains('\0'),
            final(self).next_id() == old(self).next_id() + 1,
    {
        let mut text: Vec<char> = vec!['a', 'n', 'o', 'n', '.'];
        push_int_text(&mut text, self.next as i64);
        proof {
            let n = self.next as int;
            let m: nat = if n < 0 { (-n) as nat } else { n as nat };
            lemma_nat_text_digits(m);
            assert forall|k: int| 0 <= k < text@.len() implies text@[k] != '\0' by {
                if k >= 5 {
                    let t = int_text(n);
                    assert(text@[k] == t[k - 5]);
                    if n < 0 {
                        if k > 5 {
                            assert(t[k - 5] == nat_text(m)[k - 6]);
                        }
                    } else {
                        assert(t[k - 5] == nat_text(m)[k - 5]);
                    }
                }
            }
        }
        let r = string_from_chars(&text);
        self.next += 1;
        r
    }
}

} // verus!
