//! The numbering of variables: a variable's key is its place in a list that grows.
use crate::model::{names, Name, Variable};
use vstd::prelude::*;
use vstd::std_specs::cmp::PartialEqSpec;

verus! {

/// The first place of `name` in the table, or the table's length where it is not there.
pub open spec fn key_of(table: Seq<Name>, name: Name) -> nat
    decreases table.len(),
{
    if table.len() == 0 || table[0] == name {
        0
    } else {
        1 + key_of(table.drop_first(), name)
    }
}

/// The table with `name` in it: as it was where `name` was there, longer by `name` otherwise.
pub open spec fn enter(table: Seq<Name>, name: Name) -> Seq<Name> {
    if table.contains(name) {
        table
    } else {
        table.push(name)
    }
}

/// The key of a name is its first place in the table, and the place after the last one where
/// the table lacks it.
pub proof fn lemma_key_is_first_place(table: Seq<Name>, name: Name)
    ensures
        key_of(table, name) <= table.len(),
        key_of(table, name) < table.len() <==> table.contains(name),
        key_of(table, name) < table.len() ==> table[key_of(table, name) as int] == name,
        forall|i: int| 0 <= i < key_of(table, name) ==> table[i] != name,
    decreases table.len(),
{
    if table.len() > 0 && table[0] != name {
        let rest = table.drop_first();
        lemma_key_is_first_place(rest, name);
        if table.contains(name) {
            let i = choose|i: int| 0 <= i < table.len() && table[i] == name;
            assert(rest[i - 1] == name);
        }
        if rest.contains(name) {
            assert(table[key_of(rest, name) as int + 1] == name);
        }
        assert forall|i: int| 0 <= i < key_of(table, name) implies table[i] != name by {
            if i > 0 {
                assert(rest[i - 1] == table[i]);
            }
        }
    } else if table.len() > 0 {
        assert(table.contains(table[0]));
    }
}

/// The first place of an element equal to `element` in the slice, by what `==` means for its type.
pub fn slice_key<T: Eq>(slice: &[T], element: &T) -> (key: Option<usize>)
    ensures
        key matches Some(i) ==> i < slice@.len(),
        T::obeys_eq_spec() ==> match key {
            Some(i) => slice@[i as int].eq_spec(element) && forall|j: int|
                0 <= j < i ==> !(#[trigger] slice@[j]).eq_spec(element),
            None => forall|j: int|
                0 <= j < slice@.len() ==> !(#[trigger] slice@[j]).eq_spec(element),
        },
{
    for i in 0..slice.len()
        invariant
            T::obeys_eq_spec() ==> forall|j: int|
                0 <= j < i ==> !(#[trigger] slice@[j]).eq_spec(element),
    {
        if slice[i] == *element {
            return Some(i);
        }
    }
    None
}

/// The key of a variable. A variable that has none yet gets the next one.
pub fn variable_key(variables: &mut Vec<Variable>, variable: &Variable) -> (key: usize)
    ensures
        key == key_of(names(old(variables)@), variable@),
        names(final(variables)@) == enter(names(old(variables)@), variable@),
{
    let ghost table = names(variables@);
    proof {
        lemma_key_is_first_place(table, variable@);
    }
    match slice_key(variables.as_slice(), variable) {
        Some(key) => {
            assert(table[key as int] == variable@);
            key
        },
        None => {
            let key = variables.len();
            variables.push(variable.clone());
            assert(names(variables@) =~= table.push(variable@));
            key
        },
    }
}

} // verus!
