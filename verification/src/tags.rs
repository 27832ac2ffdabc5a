//! Tag focus switching.
//!
//! A tab-switch walks the ordered tag list of an output and focuses the
//! next tag worth showing: the first tag that lies after an active tag, is
//! not itself active, and holds at least one window. When no such tag
//! exists the switch falls back to the first tag holding a window at all,
//! and when every tag is empty it does nothing. Each tag is summarized by
//! the pair (active, occupied).

use vstd::prelude::*;

verus! {

/// Whether some tag before index `j` is active.
pub open spec fn active_before(s: Seq<(bool, bool)>, j: int) -> bool {
    exists|i: int| 0 <= i < j && (#[trigger] s[i]).0
}

/// Whether the tag at `j` is where a tab-switch wants to land: inactive,
/// occupied, and after an active tag.
pub open spec fn tab_candidate(s: Seq<(bool, bool)>, j: int) -> bool {
    &&& 0 <= j < s.len()
    &&& !s[j].0
    &&& s[j].1
    &&& active_before(s, j)
}

/// The index of the tag a tab-switch focuses, given each tag's (active,
/// occupied) pair in output order: the first candidate after an active tag,
/// else the first occupied tag, else none.
pub fn tab_switch_target(tags: &Vec<(bool, bool)>) -> (r: Option<usize>)
    ensures
        match r {
            Some(j) => {
                &&& j < tags@.len()
                &&& if exists|k: int| tab_candidate(tags@, k) {
                    tab_candidate(tags@, j as int) && forall|k: int|
                        0 <= k < j ==> !tab_candidate(tags@, k)
                } else {
                    tags@[j as int].1 && forall|k: int| 0 <= k < j ==> !(#[trigger] tags@[k]).1
                }
            },
            None => forall|k: int| 0 <= k < tags@.len() ==> !(#[trigger] tags@[k]).1,
        },
{
    let mut found_active = false;
    let mut i: usize = 0;
    while i < tags.len()
        invariant
            i <= tags@.len(),
            found_active == active_before(tags@, i as int),
            forall|k: int| 0 <= k < i ==> !tab_candidate(tags@, k),
        decreases tags@.len() - i,
    {
        let (active, occupied) = tags[i];
        if active {
            found_active = true;
            proof {
                assert(tags@[i as int].0);
                assert(active_before(tags@, i + 1));
            }
        } else if found_active && occupied {
            proof {
                assert(tab_candidate(tags@, i as int));
            }
            return Some(i);
        } else {
            proof {
                assert(active_before(tags@, i + 1) ==> active_before(tags@, i as int));
            }
        }
        i = i + 1;
    }
    proof {
        assert(forall|k: int| 0 <= k < tags@.len() ==> !tab_candidate(tags@, k));
    }
    let mut j: usize = 0;
    while j < tags.len()
        invariant
            j <= tags@.len(),
            forall|k: int| 0 <= k < j ==> !(#[trigger] tags@[k]).1,
            forall|k: int| 0 <= k < tags@.len() ==> !tab_candidate(tags@, k),
        decreases tags@.len() - j,
    {
        if tags[j].1 {
            return Some(j);
        }
        j = j + 1;
    }
    None
}

} // verus!
