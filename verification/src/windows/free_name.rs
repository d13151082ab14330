//! The search for a name that is not taken yet, by a counter.
use vstd::prelude::*;

verus! {

/// Where the search for a free path stands.
#[derive(Debug, PartialEq, Eq)]
pub enum NameStep {
    /// This path is free.
    Free(Vec<u16>),
    /// Find out whether this path exists, and add the answer.
    Probe(Vec<u16>),
}

/// The first try whose path is free, or as many tries as there are answers.
pub open spec fn first_free(taken: Seq<bool>) -> int
    decreases taken.len(),
{
    if taken.len() == 0 || !taken[0] {
        0
    } else {
        1 + first_free(taken.subrange(1, taken.len() as int))
    }
}

proof fn lemma_first_free(taken: Seq<bool>, at: int)
    requires
        0 <= at <= taken.len(),
        forall|i: int| 0 <= i < at ==> taken[i],
        at < taken.len() ==> !taken[at],
    ensures
        first_free(taken) == at,
    decreases taken.len(),
{
    if at > 0 {
        lemma_first_free(taken.subrange(1, taken.len() as int), at - 1);
    }
}

/// The first try that is free, given which of the paths tried so far exist.
pub fn find_free(taken: &[bool]) -> (at: usize)
    ensures
        at == first_free(taken@),
        at <= taken@.len(),
{
    let n: usize = taken.len();
    let mut i: usize = 0;
    while i < n && taken[i]
        invariant
            n == taken@.len(),
            i <= n,
            forall|j: int| 0 <= j < i ==> taken@[j],
        decreases n - i,
    {
        i += 1;
    }
    proof {
        lemma_first_free(taken@, i as int);
    }
    i
}

/// The step that hands out the path of the first free try.
pub open spec fn is_step(step: NameStep, taken: Seq<bool>, path: Seq<u16>) -> bool {
    if first_free(taken) < taken.len() {
        step matches NameStep::Free(free) && free@ == path
    } else {
        step matches NameStep::Probe(next) && next@ == path
    }
}

/// All tries before the chosen one exist, and the chosen one does not.
pub proof fn law_first_free_is_free(taken: Seq<bool>)
    ensures
        0 <= first_free(taken) <= taken.len(),
        forall|i: int| 0 <= i < first_free(taken) ==> taken[i],
        first_free(taken) < taken.len() ==> !taken[first_free(taken)],
    decreases taken.len(),
{
    if taken.len() > 0 && taken[0] {
        let rest = taken.subrange(1, taken.len() as int);
        law_first_free_is_free(rest);
        assert forall|i: int| 0 <= i < first_free(taken) implies taken[i] by {
            if i > 0 {
                assert(rest[i - 1]);
            }
        }
    }
}

/// The name that is found is free, and every one before it is taken.
pub proof fn law_the_first_free_name_is_found(taken: &[bool], at: usize)
    requires
        call_ensures(find_free, (taken,), at),
    ensures
        at <= taken@.len(),
        at < taken@.len() ==> !taken@[at as int],
        forall|i: int| 0 <= i < at ==> #[trigger] taken@[i],
{
    law_first_free_is_free(taken@);
}

} // verus!
