use vstd::prelude::*;

verus! {

/// The index of the first occurrence of `name` in `names`, or -1.
pub open spec fn first_index_of(names: Seq<Seq<char>>, name: Seq<char>) -> int
    decreases names.len(),
{
    if names.len() == 0 {
        -1
    } else if first_index_of(names.drop_last(), name) != -1 {
        first_index_of(names.drop_last(), name)
    } else if names.last() == name {
        names.len() - 1
    } else {
        -1
    }
}

/// The index of the last occurrence of `name` in `names`, or -1.
pub open spec fn last_index_of(names: Seq<Seq<char>>, name: Seq<char>) -> int
    decreases names.len(),
{
    if names.len() == 0 {
        -1
    } else if names.last() == name {
        names.len() - 1
    } else {
        last_index_of(names.drop_last(), name)
    }
}

/// `first_index_of` finds the first occurrence, and finds none only when
/// there is none.
pub proof fn lemma_first_index_of(names: Seq<Seq<char>>, name: Seq<char>)
    ensures
        -1 <= first_index_of(names, name) < names.len(),
        first_index_of(names, name) == -1 <==> forall|k: int| 0 <= k < names.len() ==> names[k] != name,
        first_index_of(names, name) != -1 ==> names[first_index_of(names, name)] == name,
        forall|k: int| 0 <= k < first_index_of(names, name) ==> names[k] != name,
    decreases names.len(),
{
    if names.len() > 0 {
        let prefix = names.drop_last();
        lemma_first_index_of(prefix, name);
        assert forall|k: int| 0 <= k < prefix.len() implies prefix[k] == names[k] by {}
    }
}

/// `last_index_of` finds the last occurrence, and finds none only when
/// there is none.
pub proof fn lemma_last_index_of(names: Seq<Seq<char>>, name: Seq<char>)
    ensures
        -1 <= last_index_of(names, name) < names.len(),
        last_index_of(names, name) == -1 <==> forall|k: int| 0 <= k < names.len() ==> names[k] != name,
        last_index_of(names, name) != -1 ==> names[last_index_of(names, name)] == name,
        forall|k: int| last_index_of(names, name) < k < names.len() ==> names[k] != name,
    decreases names.len(),
{
    if names.len() > 0 {
        let prefix = names.drop_last();
        lemma_last_index_of(prefix, name);
        assert forall|k: int| 0 <= k < prefix.len() implies prefix[k] == names[k] by {}
    }
}

/// The first occurrence in a sequence is the first occurrence in any longer
/// sequence that starts with it.
pub proof fn lemma_first_index_of_prefix(names: Seq<Seq<char>>, name: Seq<char>, m: int)
    requires
        0 <= m <= names.len(),
        first_index_of(names.take(m), name) != -1,
    ensures
        first_index_of(names, name) == first_index_of(names.take(m), name),
    decreases names.len() - m,
{
    if m < names.len() {
        assert(names.take(m + 1).drop_last() =~= names.take(m));
        lemma_first_index_of_prefix(names, name, m + 1);
    } else {
        assert(names.take(m) =~= names);
    }
}

} // verus!
