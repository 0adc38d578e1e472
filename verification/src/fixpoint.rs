//! The fixed point of composite resolution.
//!
//! A composite entry can resolve once the peers it inherits from are
//! resolved.  Which entries resolve at all is therefore a least fixed
//! point: starting from nothing, repeatedly add every entry that is ready
//! against what is already resolved.  The specifications here define that
//! fixed point for any readiness predicate, and give the lemmas the
//! resolver loops need: an entry ready against the resolved set is in the
//! fixed point; when no unresolved entry is ready, the fixed point has
//! been reached; an entry ready against no subset of the domain is in no
//! fixed point.

use vstd::prelude::*;

verus! {

/// A readiness predicate is monotone: an entry ready against some
/// resolved set is ready against any larger one.
pub open spec fn monotone(ready: spec_fn(Set<Seq<char>>, Seq<char>) -> bool) -> bool {
    forall|s1: Set<Seq<char>>, s2: Set<Seq<char>>, n: Seq<char>|
        #![trigger ready(s1, n), ready(s2, n)]
        s1.subset_of(s2) && ready(s1, n) ==> ready(s2, n)
}

/// The entries of `dom` that resolve within `fuel` rounds: each round
/// adds every entry that is ready against the previous rounds' yield.
pub open spec fn reach(
    ready: spec_fn(Set<Seq<char>>, Seq<char>) -> bool,
    dom: Set<Seq<char>>,
    fuel: nat,
) -> Set<Seq<char>>
    decreases fuel,
{
    if fuel == 0 {
        Set::empty()
    } else {
        let prev = reach(ready, dom, (fuel - 1) as nat);
        prev.union(Set::new(|n: Seq<char>| dom.contains(n) && ready(prev, n)))
    }
}

/// Whether an entry resolves in some number of rounds.
pub open spec fn resolvable(
    ready: spec_fn(Set<Seq<char>>, Seq<char>) -> bool,
    dom: Set<Seq<char>>,
    n: Seq<char>,
) -> bool {
    exists|fuel: nat| reach(ready, dom, fuel).contains(n)
}

/// Whether every entry of the domain resolves.
pub open spec fn all_resolvable(
    ready: spec_fn(Set<Seq<char>>, Seq<char>) -> bool,
    dom: Set<Seq<char>>,
) -> bool {
    forall|n: Seq<char>| #[trigger] dom.contains(n) ==> resolvable(ready, dom, n)
}

/// Whatever resolves is in the domain.
pub proof fn lemma_reach_in_dom(
    ready: spec_fn(Set<Seq<char>>, Seq<char>) -> bool,
    dom: Set<Seq<char>>,
    fuel: nat,
)
    ensures
        reach(ready, dom, fuel).subset_of(dom),
    decreases fuel,
{
    if fuel > 0 {
        lemma_reach_in_dom(ready, dom, (fuel - 1) as nat);
    }
}

/// An entry ready against a resolved set inside the fixed point is in the
/// fixed point, one round later.
pub proof fn lemma_reach_step(
    ready: spec_fn(Set<Seq<char>>, Seq<char>) -> bool,
    dom: Set<Seq<char>>,
    done: Set<Seq<char>>,
    fuel: nat,
    n: Seq<char>,
)
    requires
        monotone(ready),
        done.subset_of(reach(ready, dom, fuel)),
        dom.contains(n),
        ready(done, n),
    ensures
        done.insert(n).subset_of(reach(ready, dom, fuel + 1)),
{
    let prev = reach(ready, dom, fuel);
    assert(ready(prev, n));
    assert(reach(ready, dom, fuel + 1).contains(n));
}

/// When no unresolved entry is ready against the resolved set, the
/// resolved set covers the whole fixed point: nothing more ever resolves.
pub proof fn lemma_stall(
    ready: spec_fn(Set<Seq<char>>, Seq<char>) -> bool,
    dom: Set<Seq<char>>,
    done: Set<Seq<char>>,
    fuel: nat,
)
    requires
        monotone(ready),
        forall|m: Seq<char>| dom.contains(m) && !done.contains(m) ==> !#[trigger] ready(done, m),
    ensures
        reach(ready, dom, fuel).subset_of(done),
    decreases fuel,
{
    if fuel > 0 {
        lemma_stall(ready, dom, done, (fuel - 1) as nat);
        let prev = reach(ready, dom, (fuel - 1) as nat);
        assert forall|n: Seq<char>| reach(ready, dom, fuel).contains(n) implies done.contains(
            n,
        ) by {
            if !prev.contains(n) {
                assert(dom.contains(n) && ready(prev, n));
                assert(ready(done, n));
            }
        }
    }
}

/// An entry that is ready against no subset of the domain never resolves.
pub proof fn lemma_never_ready(
    ready: spec_fn(Set<Seq<char>>, Seq<char>) -> bool,
    dom: Set<Seq<char>>,
    n: Seq<char>,
)
    requires
        forall|s: Set<Seq<char>>| s.subset_of(dom) ==> !#[trigger] ready(s, n),
    ensures
        !resolvable(ready, dom, n),
{
    assert forall|fuel: nat| !reach(ready, dom, fuel).contains(n) by {
        lemma_never_ready_fuel(ready, dom, n, fuel);
    }
}

proof fn lemma_never_ready_fuel(
    ready: spec_fn(Set<Seq<char>>, Seq<char>) -> bool,
    dom: Set<Seq<char>>,
    n: Seq<char>,
    fuel: nat,
)
    requires
        forall|s: Set<Seq<char>>| s.subset_of(dom) ==> !#[trigger] ready(s, n),
    ensures
        !reach(ready, dom, fuel).contains(n),
    decreases fuel,
{
    if fuel > 0 {
        lemma_never_ready_fuel(ready, dom, n, (fuel - 1) as nat);
        lemma_reach_in_dom(ready, dom, (fuel - 1) as nat);
    }
}

} // verus!
