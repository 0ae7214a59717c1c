//! Lists of strings, seen as lists of character sequences.

use vstd::prelude::*;

verus! {

/// The character sequences of a list of strings, in order.
pub open spec fn texts(list: Seq<String>) -> Seq<Seq<char>> {
    Seq::new(list.len(), |i: int| list[i]@)
}

/// Whether `wanted` occurs in `list`.
pub fn occurs(list: &Vec<String>, wanted: &String) -> (found: bool)
    ensures
        found == texts(list@).contains(wanted@),
{
    let mut i: usize = 0;
    while i < list.len()
        invariant
            i <= list.len(),
            forall|j: int| 0 <= j < i ==> texts(list@)[j] != wanted@,
        decreases list.len() - i,
    {
        if list[i] == *wanted {
            assert(texts(list@)[i as int] == wanted@);
            return true;
        }
        i += 1;
    }
    false
}

/// Appends a copy of every string of `source` to `target`.
pub fn append_copies(target: &mut Vec<String>, source: &Vec<String>)
    ensures
        texts(final(target)@) == texts(old(target)@) + texts(source@),
{
    let ghost before = texts(target@);
    let mut i: usize = 0;
    while i < source.len()
        invariant
            i <= source.len(),
            texts(target@) == before + texts(source@).take(i as int),
        decreases source.len() - i,
    {
        let ghost so_far = texts(target@);
        target.push(source[i].clone());
        assert(texts(target@) =~= so_far.push(source[i as int]@));
        assert(texts(source@).take(i + 1) =~= texts(source@).take(i as int).push(source[i as int]@));
        i += 1;
    }
    assert(texts(source@).take(source.len() as int) =~= texts(source@));
}

} // verus!
