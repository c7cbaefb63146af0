use vstd::prelude::*;
use crate::ir::LocalRef;
use crate::ir::lexical_scope::names::{last_index_of, lemma_last_index_of};

verus! {

/// A block: the names it defines, each bound to a slot of the enclosing
/// stack frame. A later definition of a name hides an earlier one.
pub struct BlockScope {
    names: Vec<(String, LocalRef)>,
}

impl View for BlockScope {
    type V = Seq<(Seq<char>, LocalRef)>;

    closed spec fn view(&self) -> Seq<(Seq<char>, LocalRef)> {
        self.names@.map_values(|p: (String, LocalRef)| (p.0@, p.1))
    }
}

/// What a name means in a block: its latest definition there.
pub open spec fn block_find(names: Seq<(Seq<char>, LocalRef)>, name: Seq<char>) -> Option<LocalRef> {
    let j = last_index_of(names.map_values(|p: (Seq<char>, LocalRef)| p.0), name);
    if j != -1 {
        Some(names[j].1)
    } else {
        None
    }
}

impl BlockScope {
    /// A block that defines no names.
    pub fn new() -> (r: Self)
        ensures
            r@ == Seq::<(Seq<char>, LocalRef)>::empty(),
    {
        BlockScope { names: Vec::new() }
    }

    /// Binds `name` to `local_ref` in this block.
    pub fn set_name(&mut self, name: String, local_ref: LocalRef)
        ensures
            final(self)@ == old(self)@.push((name@, local_ref)),
    {
        self.names.push((name, local_ref));
        proof {
            assert(self@ =~= old(self)@.push((name@, local_ref)));
        }
    }

    /// The latest binding of `name` in this block.
    pub fn find_name(&self, name: &str) -> (r: Option<LocalRef>)
        ensures
            r == block_find(self@, name@),
    {
        let wanted = name.to_string();
        let ghost keys = self@.map_values(|p: (Seq<char>, LocalRef)| p.0);
        let mut i: usize = self.names.len();
        while i > 0
            invariant
                wanted@ == name@,
                i <= self.names@.len(),
                keys == self@.map_values(|p: (Seq<char>, LocalRef)| p.0),
                forall|k: int| i <= k < self.names@.len() ==> self.names@[k].0@ != name@,
            decreases i,
        {
            i -= 1;
            if self.names[i].0 == wanted {
                proof {
                    lemma_last_index_of(keys, name@);
                    assert(keys[i as int] == name@);
                    let r = last_index_of(keys, name@);
                    assert(r != -1);
                    if r > i { assert(keys[r] == name@); }
                    if r < i { assert(keys[i as int] != name@); }
                    assert(r == i);
                }
                return Some(self.names[i].1);
            }
        }
        proof {
            lemma_last_index_of(keys, name@);
        }
        None
    }
}

} // verus!
