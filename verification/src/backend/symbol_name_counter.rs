use vstd::prelude::*;
use crate::ast::chars::string_from_chars;
use crate::text::{nat_text, push_nat_text, push_str, lemma_numbered_text_injective, lemma_nat_text_digits};

verus! {

/// The symbol name for `prefix` that carries the number `n`.
pub open spec fn symbol_name(prefix: Seq<char>, n: nat) -> Seq<char> {
    prefix + seq!['.'] + nat_text(n)
}

/// Names for one prefix that carry different numbers differ: as a
/// counter's number grows by one at each call, no name it hands out for a
/// prefix repeats.
pub proof fn lemma_symbol_names_distinct(prefix: Seq<char>, a: nat, b: nat)
    requires
        a != b,
    ensures
        symbol_name(prefix, a) != symbol_name(prefix, b),
{
    if symbol_name(prefix, a) == symbol_name(prefix, b) {
        lemma_numbered_text_injective(prefix + seq!['.'], a, b);
    }
}

/// Hands out symbol names made unique by a counter: `prefix.1`,
/// `prefix.2`, and so on.
pub struct SymbolNameCounter {
    next_id: u64,
}

impl SymbolNameCounter {
    /// The number the next name carries.
    pub closed spec fn next_number(&self) -> nat {
        self.next_id as nat
    }

    /// A counter whose first name ends in `.1`.
    pub fn new() -> (r: Self)
        ensures
            r.next_number() == 1,
    {
        Self { next_id: 1 }
    }

    /// The next name: `prefix`, a dot, and the counter; the counter moves on.
    /// A symbol name holds no NUL character, so neither may `prefix`.
    pub fn next(&mut self, prefix: &str) -> (r: String)
        requires
            old(self).next_number() < u64::MAX,
            !prefix@.contains('\0'),
        ensures
            r@ == symbol_name(prefix@, old(self).next_number()),
            !r@.contains('\0'),
            final(self).next_number() == old(self).next_number() + 1,
    {
        let mut text: Vec<char> = Vec::new();
        push_str(&mut text, prefix);
        text.push('.');
        push_nat_text(&mut text, self.next_id);
        proof {
            assert(text@ =~= prefix@ + seq!['.'] + nat_text(old(self).next_number()));
            let d = nat_text(old(self).next_number());
            lemma_nat_text_digits(old(self).next_number());
            assert forall|k: int| 0 <= k < text@.len() implies text@[k] != '\0' by {
                if k < prefix@.len() {
                    assert(text@[k] == prefix@[k]);
                } else if k > prefix@.len() {
                    assert(text@[k] == d[k - prefix@.len() - 1]);
                }
            }
        }
        let r = string_from_chars(&text);
        self.next_id += 1;
        r
    }
}

} // verus!
