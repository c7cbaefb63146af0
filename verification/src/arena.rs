use std::marker::PhantomData;
use vstd::prelude::*;

verus! {

/// A growable store of values, each addressed by the reference that
/// `allocate` handed out for it.
pub struct Arena<T: Sized> {
    values: Vec<T>,
}

/// A typed index into an [`Arena`].
#[derive(Debug)]
pub struct ArenaRef<T: Sized> {
    i: usize,
    refers_to: PhantomData<T>,
}

impl<T> Clone for ArenaRef<T> {
    fn clone(&self) -> (r: Self)
        ensures
            r == *self,
    {
        ArenaRef { i: self.i, refers_to: PhantomData }
    }
}

impl<T> Copy for ArenaRef<T> {}

impl<T> ArenaRef<T> {
    /// The position of the referenced slot.
    pub closed spec fn index(self) -> nat {
        self.i as nat
    }

    /// The position of the referenced slot.
    pub fn slot(&self) -> (r: usize)
        ensures
            r == self.index(),
    {
        self.i
    }

    /// Two references are the same reference when they name the same slot.
    pub fn same_as(&self, other: &ArenaRef<T>) -> (r: bool)
        ensures
            r == (self.index() == other.index()),
    {
        self.i == other.i
    }
}

impl<T> View for Arena<T> {
    type V = Seq<T>;

    closed spec fn view(&self) -> Seq<T> {
        self.values@
    }
}

impl<T> Arena<T> {
    /// Whether `r` names a slot of this arena.
    pub open spec fn contains(&self, r: ArenaRef<T>) -> bool {
        r.index() < self@.len()
    }

    /// An empty arena.
    pub fn new() -> (a: Self)
        ensures
            a@ == Seq::<T>::empty(),
    {
        Self { values: Vec::new() }
    }

    /// The number of values stored.
    pub fn len(&self) -> (r: usize)
        ensures
            r == self@.len(),
    {
        self.values.len()
    }

    /// Stores `value` in a fresh slot at the end and returns its reference.
    pub fn allocate(&mut self, value: T) -> (r: ArenaRef<T>)
        ensures
            final(self)@ == old(self)@.push(value),
            r.index() == old(self)@.len(),
    {
        let i = self.values.len();
        self.values.push(value);
        ArenaRef { i, refers_to: PhantomData }
    }

    /// The value stored at `arena_ref`.
    pub fn get(&self, arena_ref: ArenaRef<T>) -> (r: &T)
        requires
            self.contains(arena_ref),
        ensures
            *r == self@[arena_ref.index() as int],
    {
        &self.values[arena_ref.i]
    }

    /// Replaces the value stored at `arena_ref`.
    pub fn set(&mut self, arena_ref: ArenaRef<T>, value: T)
        requires
            old(self).contains(arena_ref),
        ensures
            final(self)@ == old(self)@.update(arena_ref.index() as int, value),
    {
        self.values.set(arena_ref.i, value);
    }

    /// A new arena holding `mapper` applied to every value, slot by slot.
    pub fn map<R, F: Fn(T) -> R>(self, mapper: F) -> (r: Arena<R>)
        requires
            forall|i: int| 0 <= i < self@.len() ==> call_requires(mapper, (self@[i],)),
        ensures
            r@.len() == self@.len(),
            forall|i: int| 0 <= i < self@.len() ==> call_ensures(mapper, (self@[i],), #[trigger] r@[i]),
    {
        let ghost old_values = self@;
        let mut values = self.values;
        let mut out: Vec<R> = Vec::new();
        let mut taken: Vec<T> = Vec::new();
        // Values are moved out back to front, then mapped front to back.
        while values.len() > 0
            invariant
                values@ + taken@.reverse() == old_values,
                forall|i: int| 0 <= i < old_values.len() ==> call_requires(mapper, (old_values[i],)),
            decreases values.len(),
        {
            let v = values.pop().unwrap();
            proof {
                assert(taken@.push(v).reverse() =~= seq![v] + taken@.reverse());
            }
            taken.push(v);
            assert(values@ + taken@.reverse() =~= old_values);
        }
        assert(taken@.reverse() =~= old_values);
        let n = taken.len();
        while taken.len() > 0
            invariant
                n == old_values.len(),
                taken@.len() + out@.len() == n,
                forall|i: int| 0 <= i < taken@.len() ==> taken@[i] == old_values[n - 1 - i],
                forall|i: int| 0 <= i < n ==> call_requires(mapper, (old_values[i],)),
                forall|i: int| 0 <= i < out@.len() ==> call_ensures(mapper, (old_values[i],), #[trigger] out@[i]),
            decreases taken.len(),
        {
            let v = taken.pop().unwrap();
            let ghost k = out@.len() as int;
            assert(v == old_values[k]);
            let m = mapper(v);
            out.push(m);
        }
        Arena { values: out }
    }
}

/// Read after allocate: the reference that `allocate` returns names a slot
/// of the grown arena holding the allocated value, while every slot of the
/// arena before the call keeps its value.
pub proof fn lemma_allocate_then_get<T>(before: Arena<T>, after: Arena<T>, value: T, r: ArenaRef<T>)
    requires
        after@ == before@.push(value),
        r.index() == before@.len(),
    ensures
        after.contains(r),
        !before.contains(r),
        after@[r.index() as int] == value,
        forall|q: ArenaRef<T>| #[trigger] before.contains(q) ==> after.contains(q) && after@[q.index() as int] == before@[q.index() as int],
{
}

/// Read after write: after `set`, the written reference reads back the
/// written value, every other reference reads back its old value, and the
/// arena keeps its size.
pub proof fn lemma_set_then_get<T>(before: Arena<T>, after: Arena<T>, value: T, r: ArenaRef<T>)
    requires
        before.contains(r),
        after@ == before@.update(r.index() as int, value),
    ensures
        after@.len() == before@.len(),
        after@[r.index() as int] == value,
        forall|q: ArenaRef<T>| #[trigger] before.contains(q) && q.index() != r.index() ==> after@[q.index() as int] == before@[q.index() as int],
{
}

} // verus!
