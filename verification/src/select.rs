//! Picking the level with the most rooms.

use vstd::prelude::*;
use crate::level::Lev;

verus! {

/// The one error of the pipeline: a best level was asked of an empty
/// collection.
#[derive(Clone, Copy, PartialEq, Eq, Structural, Debug)]
pub enum LevError {
    EmptyInput,
}

/// `i` is the index of the first level with the maximum room count: no level
/// beats it, and every earlier level has strictly fewer rooms.
pub open spec fn best_at(ls: Seq<Lev>, i: int) -> bool {
    &&& 0 <= i < ls.len()
    &&& forall|j: int| 0 <= j < ls.len() ==> (#[trigger] ls[j]).rooms@.len() <= ls[i].rooms@.len()
    &&& forall|j: int| 0 <= j < i ==> (#[trigger] ls[j]).rooms@.len() < ls[i].rooms@.len()
}

/// Returns the level with the strictly greatest room count, ties broken in
/// favour of the first such level in order; an empty collection is the one
/// error condition.
pub fn find_most_rooms<'a>(ls: &'a Vec<Lev>) -> (r: Result<&'a Lev, LevError>)
    ensures
        r is Err <==> ls@.len() == 0,
        r matches Err(e) ==> e == LevError::EmptyInput,
        r matches Ok(l) ==> exists|i: int| best_at(ls@, i) && *l == ls@[i],
{
    if ls.len() == 0 {
        return Err(LevError::EmptyInput);
    }
    let mut best: usize = 0;
    let mut i: usize = 1;
    while i < ls.len()
        invariant
            best < i <= ls@.len(),
            forall|j: int| 0 <= j < i ==> (#[trigger] ls@[j]).rooms@.len() <= ls@[best as int].rooms@.len(),
            forall|j: int| 0 <= j < best ==> (#[trigger] ls@[j]).rooms@.len() < ls@[best as int].rooms@.len(),
        decreases ls@.len() - i,
    {
        if ls[i].rooms.len() > ls[best].rooms.len() {
            best = i;
        }
        i += 1;
    }
    proof {
        assert(best_at(ls@, best as int));
    }
    Ok(&ls[best])
}

} // verus!
