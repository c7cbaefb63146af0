use vstd::prelude::*;
use crate::ir::{Global, GlobalRef};
use crate::ir::value::ValueV;
use crate::ir::lexical_scope::names::{first_index_of, lemma_first_index_of};

verus! {

/// The outermost scope: the globals of a module.
pub struct RootScope {
    globals: Vec<Global>,
    pub comptime_exports: Vec<ComptimeExportSlot>,
}

/// A slot for a value computed at compile time and kept for run time.
#[derive(Debug, Clone, Copy, PartialEq, Eq, Structural)]
pub struct ComptimeExportSlot {}

/// The content of a [`RootScope`]: the name, comptime flag and value of
/// each global, and the number of export slots.
pub struct RootScopeV {
    pub global_names: Seq<Seq<char>>,
    pub global_comptime: Seq<bool>,
    pub global_values: Seq<ValueV>,
    pub exports: nat,
}

impl View for RootScope {
    type V = RootScopeV;

    closed spec fn view(&self) -> RootScopeV {
        RootScopeV {
            global_names: self.globals@.map_values(|g: Global| g.name@),
            global_comptime: self.globals@.map_values(|g: Global| g.comptime),
            global_values: self.globals@.map_values(|g: Global| g.value@),
            exports: self.comptime_exports@.len(),
        }
    }
}

impl RootScopeV {
    /// What a name means at the root: the first global of that name.
    pub open spec fn find(self, name: Seq<char>) -> Option<GlobalRef> {
        let g = first_index_of(self.global_names, name);
        if g != -1 {
            Some(GlobalRef { i: g as usize, comptime: self.global_comptime[g] })
        } else {
            None
        }
    }
}

impl RootScope {
    /// A root holding `globals` and no export slots.
    pub fn new(globals: Vec<Global>) -> (r: Self)
        ensures
            r@.global_names == globals@.map_values(|g: Global| g.name@),
            r@.global_comptime == globals@.map_values(|g: Global| g.comptime),
            r@.global_values == globals@.map_values(|g: Global| g.value@),
            r@.exports == 0,
    {
        Self { globals, comptime_exports: Vec::new() }
    }

    /// The first global named `name`.
    pub fn find_global(&self, name: &str) -> (r: Option<GlobalRef>)
        ensures
            r == self@.find(name@),
    {
        let wanted = name.to_string();
        let mut i: usize = 0;
        while i < self.globals.len()
            invariant
                wanted@ == name@,
                i <= self.globals@.len(),
                forall|k: int| 0 <= k < i ==> self.globals@[k].name@ != name@,
            decreases self.globals@.len() - i,
        {
            if self.globals[i].name == wanted {
                proof {
                    let names = self@.global_names;
                    lemma_first_index_of(names, name@);
                    assert(names[i as int] == name@);
                    assert(forall|k: int| 0 <= k < i ==> names[k] != name@);
                    let r = first_index_of(names, name@);
                    if r < i { assert(names[r] == name@); }
                    if r > i { assert(names[i as int] != name@); }
                    assert(r == i);
                    assert(self@.global_comptime[r] == self.globals@[i as int].comptime);
                }
                return Some(GlobalRef { i, comptime: self.globals[i].comptime });
            }
            i += 1;
        }
        proof {
            lemma_first_index_of(self@.global_names, name@);
        }
        None
    }
}

} // verus!
