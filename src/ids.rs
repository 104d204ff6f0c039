//! Lists of entity ids without repetition, read as sets.
use vstd::prelude::*;

use crate::bytes::bytes_equal;

verus! {

/// The ids that a list holds.
pub open spec fn id_set(list: Seq<Vec<u8>>) -> Set<Seq<u8>> {
    Set::new(|k: Seq<u8>| exists|i: int| 0 <= i < list.len() && (#[trigger] list[i])@ == k)
}

/// No id occurs twice in the list.
pub open spec fn ids_distinct(list: Seq<Vec<u8>>) -> bool {
    forall|i: int, j: int| 0 <= i < j < list.len() ==> (#[trigger] list[i])@ != (#[trigger] list[j])@
}

/// Finds the position of `id` in the list.
pub fn find_id(list: &Vec<Vec<u8>>, id: &[u8]) -> (r: Option<usize>)
    ensures
        match r {
            Some(i) => i < list@.len() && list@[i as int]@ == id@,
            None => !id_set(list@).contains(id@),
        },
{
    let mut i: usize = 0;
    while i < list.len()
        invariant
            0 <= i <= list@.len(),
            forall|j: int| 0 <= j < i ==> (#[trigger] list@[j])@ != id@,
        decreases list@.len() - i,
    {
        if bytes_equal(list[i].as_slice(), id) {
            return Some(i);
        }
        i = i + 1;
    }
    None
}

/// Removes `id` from the list, if it is there.
pub(crate) fn remove_id(list: &mut Vec<Vec<u8>>, id: &[u8])
    requires
        ids_distinct(old(list)@),
    ensures
        ids_distinct(final(list)@),
        id_set(final(list)@) == id_set(old(list)@).remove(id@),
{
    match find_id(list, id) {
        Some(i) => {
            let ghost before = list@;
            list.remove(i);
            proof {
                let after = list@;
                assert(after =~= before.remove(i as int));
                assert forall|a: int, b: int| 0 <= a < b < after.len() implies (#[trigger] after[a])@
                    != (#[trigger] after[b])@ by {
                    if a < i {
                        if b < i {
                        } else {
                            assert(after[b] == before[b + 1]);
                        }
                    } else {
                        assert(after[a] == before[a + 1]);
                        assert(after[b] == before[b + 1]);
                    }
                }
                assert forall|k: Seq<u8>| #[trigger]
                    id_set(after).contains(k) == id_set(before).remove(id@).contains(k) by {
                    if id_set(after).contains(k) {
                        let j = choose|j: int| 0 <= j < after.len() && (#[trigger] after[j])@ == k;
                        if j < i {
                            assert(before[j] == after[j]);
                            assert(before[j]@ != before[i as int]@);
                        } else {
                            assert(before[j + 1] == after[j]);
                            assert(before[j + 1]@ != before[i as int]@);
                        }
                        assert(id_set(before).contains(k));
                    }
                    if id_set(before).remove(id@).contains(k) {
                        let j = choose|j: int| 0 <= j < before.len() && (#[trigger] before[j])@ == k;
                        assert(j != i);
                        if j < i {
                            assert(after[j] == before[j]);
                        } else {
                            assert(after[j - 1] == before[j]);
                        }
                    }
                }
                assert(id_set(after) =~= id_set(before).remove(id@));
            }
        },
        None => {
            assert(id_set(list@) =~= id_set(list@).remove(id@));
        },
    }
}

} // verus!
