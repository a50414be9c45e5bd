//! Lists of named entries, and finding an entry by its name.

use vstd::prelude::*;

verus! {

/// The first position at or after `from` whose entry is named `name`, or the
/// length of `entries` where no entry from there on has that name.
pub open spec fn position_from<V>(entries: Seq<(Seq<char>, V)>, name: Seq<char>, from: int) -> int
    decreases entries.len() - from,
{
    if from < 0 || from >= entries.len() {
        entries.len() as int
    } else if entries[from].0 == name {
        from
    } else {
        position_from(entries, name, from + 1)
    }
}

/// The position of the first entry named `name`, or the length of `entries`
/// where none has that name.
pub open spec fn position<V>(entries: Seq<(Seq<char>, V)>, name: Seq<char>) -> int {
    position_from(entries, name, 0)
}

/// Whether some entry is named `name`.
pub open spec fn has_name<V>(entries: Seq<(Seq<char>, V)>, name: Seq<char>) -> bool {
    position(entries, name) < entries.len()
}

/// What stands under `name`: the value of the first entry of that name.
pub open spec fn lookup<V>(entries: Seq<(Seq<char>, V)>, name: Seq<char>) -> Option<V> {
    if has_name(entries, name) {
        Some(entries[position(entries, name)].1)
    } else {
        None
    }
}

/// Whether no two entries have the same name.
pub open spec fn distinct_names<V>(entries: Seq<(Seq<char>, V)>) -> bool {
    forall|i: int, j: int|
        0 <= i < j < entries.len() ==> (#[trigger] entries[i]).0 != (#[trigger] entries[j]).0
}

/// `position_from` finds an entry of the name, and no entry between `from`
/// and the one it finds has the name.
pub proof fn lemma_position_from<V>(entries: Seq<(Seq<char>, V)>, name: Seq<char>, from: int)
    requires
        0 <= from <= entries.len(),
    ensures
        from <= position_from(entries, name, from) <= entries.len(),
        position_from(entries, name, from) < entries.len() ==> entries[position_from(
            entries,
            name,
            from,
        )].0 == name,
        forall|k: int|
            from <= k < position_from(entries, name, from) ==> (#[trigger] entries[k]).0 != name,
    decreases entries.len() - from,
{
    if from < entries.len() && entries[from].0 != name {
        lemma_position_from(entries, name, from + 1);
    }
}

/// The first entry of a name is where `position` says it is.
pub proof fn lemma_position_of_first<V>(entries: Seq<(Seq<char>, V)>, name: Seq<char>, at: int)
    requires
        0 <= at <= entries.len(),
        at < entries.len() ==> entries[at].0 == name,
        forall|k: int| 0 <= k < at ==> (#[trigger] entries[k]).0 != name,
    ensures
        position(entries, name) == at,
{
    lemma_position_from(entries, name, 0);
}

/// An entry's name is found, at the entry or before it.
pub proof fn lemma_has_name<V>(entries: Seq<(Seq<char>, V)>, at: int)
    requires
        0 <= at < entries.len(),
    ensures
        has_name(entries, entries[at].0),
        position(entries, entries[at].0) <= at,
        distinct_names(entries) ==> position(entries, entries[at].0) == at,
{
    lemma_position_from(entries, entries[at].0, 0);
}

/// Finds the first entry named `name`: returns its position, or the number
/// of entries where none has that name.
pub fn find<V>(entries: &Vec<(String, V)>, name: &String) -> (at: usize)
    ensures
        at <= entries@.len(),
        at < entries@.len() ==> entries@[at as int].0@ == name@,
        forall|k: int| 0 <= k < at ==> (#[trigger] entries@[k]).0@ != name@,
{
    let mut i: usize = 0;
    while i < entries.len()
        invariant
            i <= entries@.len(),
            forall|k: int| 0 <= k < i ==> (#[trigger] entries@[k]).0@ != name@,
        decreases entries@.len() - i,
    {
        if entries[i].0 == *name {
            return i;
        }
        i += 1;
    }
    i
}

} // verus!
