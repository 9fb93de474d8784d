//! The topological sequencer: the packages of a subgraph in an order in which
//! every package comes after all that it needs.
//!
//! The order is built in rounds. A package is ready once everything it needs
//! has been put out in an earlier round; each round puts out all the packages
//! that are ready, by ascending id. Development-only links place no demand on
//! the order. Read backwards, the same order lists dependents first.
use crate::error::{ErrorView, TopoError};
use crate::flags::{clear_flags, count_set, lemma_count_set_bound, lemma_count_set_update};
use crate::resolve::{Direction, ResolvedSubgraph, SubgraphView};
use vstd::prelude::*;
use vstd::set_lib::{lemma_int_range, lemma_len_subset, set_int_range};

verus! {

/// `a` needs `b`: a link of the subgraph that is not development-only leads
/// from `a` to `b`.
pub open spec fn needs(sv: SubgraphView, a: int, b: int) -> bool {
    exists|k: int|
        0 <= k < sv.links.len() && !(#[trigger] sv.links[k]).dev_only && sv.links[k].from == a
            && sv.links[k].to == b
}

/// `p` can be put out next: it is in the subgraph, it is not out yet, and
/// all that it needs is.
pub open spec fn ready(sv: SubgraphView, done: Set<int>, p: int) -> bool {
    &&& sv.packages.contains(p)
    &&& !done.contains(p)
    &&& forall|k: int|
        0 <= k < sv.links.len() && !(#[trigger] sv.links[k]).dev_only && sv.links[k].from == p
            ==> done.contains(sv.links[k].to as int)
}

/// The ready packages with an id below `bound`, by ascending id.
pub open spec fn ready_below(sv: SubgraphView, done: Set<int>, bound: nat) -> Seq<int>
    decreases bound,
{
    if bound == 0 {
        Seq::empty()
    } else {
        let lower = ready_below(sv, done, (bound - 1) as nat);
        if ready(sv, done, bound - 1) {
            lower.push(bound - 1)
        } else {
            lower
        }
    }
}

/// The packages that are out after `rounds` rounds.
pub open spec fn done_after(sv: SubgraphView, rounds: nat) -> Set<int>
    decreases rounds,
{
    if rounds == 0 {
        Set::empty()
    } else {
        let before = done_after(sv, (rounds - 1) as nat);
        Set::new(|p: int| before.contains(p) || ready(sv, before, p))
    }
}

/// The packages that `rounds` rounds put out, in the order in which they
/// come out.
pub open spec fn emitted(sv: SubgraphView, rounds: nat) -> Seq<int>
    decreases rounds,
{
    if rounds == 0 {
        Seq::empty()
    } else {
        emitted(sv, (rounds - 1) as nat) + ready_below(
            sv,
            done_after(sv, (rounds - 1) as nat),
            sv.universe,
        )
    }
}

/// The build order: what comes out of as many rounds as the graph has
/// packages. No round after those can put out anything.
pub open spec fn build_order(sv: SubgraphView) -> Seq<int> {
    emitted(sv, sv.universe)
}

/// The order in a direction: the build order, or the build order backwards.
pub open spec fn ordering(sv: SubgraphView, direction: Direction) -> Seq<int> {
    match direction {
        Direction::Forward => build_order(sv),
        Direction::Reverse => build_order(sv).reverse(),
    }
}

/// `chain[i]` needs `chain[i + 1]`.
pub open spec fn needs_at(sv: SubgraphView, chain: Seq<int>, i: int) -> bool {
    needs(sv, chain[i], chain[i + 1])
}

/// Each package of `chain` needs the next one.
pub open spec fn is_chain(sv: SubgraphView, chain: Seq<int>) -> bool {
    forall|i: int| 0 <= i < chain.len() - 1 ==> #[trigger] needs_at(sv, chain, i)
}

/// `chain` leads from a package back to itself.
pub open spec fn is_cycle(sv: SubgraphView, chain: Seq<int>) -> bool {
    chain.len() >= 2 && is_chain(sv, chain) && chain.first() == chain.last()
}

/// Some package needs itself, directly or through others.
pub open spec fn has_cycle(sv: SubgraphView) -> bool {
    exists|chain: Seq<int>| is_cycle(sv, chain)
}

/// `order` holds each of `packages` once and nothing else.
pub open spec fn is_arrangement_of(order: Seq<int>, packages: Set<int>) -> bool {
    order.no_duplicates() && forall|p: int| order.contains(p) <==> packages.contains(p)
}

/// Where `order` holds both ends of a link that is not development-only,
/// the package that is needed stands before the one that needs it.
pub open spec fn dependencies_first(sv: SubgraphView, order: Seq<int>) -> bool {
    forall|k: int, i: int, j: int|
        0 <= k < sv.links.len() && !(#[trigger] sv.links[k]).dev_only && 0 <= i < order.len() && 0
            <= j < order.len() && #[trigger] order[i] == sv.links[k].from && #[trigger] order[j]
            == sv.links[k].to ==> j < i
}

/// Where `order` holds both ends of a link that is not development-only,
/// the package that is needed stands after the one that needs it.
pub open spec fn dependents_first(sv: SubgraphView, order: Seq<int>) -> bool {
    forall|k: int, i: int, j: int|
        0 <= k < sv.links.len() && !(#[trigger] sv.links[k]).dev_only && 0 <= i < order.len() && 0
            <= j < order.len() && #[trigger] order[i] == sv.links[k].from && #[trigger] order[j]
            == sv.links[k].to ==> i < j
}

/// What `ready_below` holds: the ready packages below the bound, each once,
/// by ascending id.
pub proof fn lemma_ready_below(sv: SubgraphView, done: Set<int>, bound: nat)
    ensures
        forall|i: int|
            0 <= i < ready_below(sv, done, bound).len() ==> 0 <= #[trigger] ready_below(
                sv,
                done,
                bound,
            )[i] < bound && ready(sv, done, ready_below(sv, done, bound)[i]),
        forall|i: int, j: int|
            0 <= i < j < ready_below(sv, done, bound).len() ==> #[trigger] ready_below(
                sv,
                done,
                bound,
            )[i] < #[trigger] ready_below(sv, done, bound)[j],
        forall|p: int|
            0 <= p < bound && ready(sv, done, p) ==> #[trigger] ready_below(
                sv,
                done,
                bound,
            ).contains(p),
    decreases bound,
{
    if bound > 0 {
        let lower = ready_below(sv, done, (bound - 1) as nat);
        let all = ready_below(sv, done, bound);
        lemma_ready_below(sv, done, (bound - 1) as nat);
        assert forall|p: int| 0 <= p < bound && ready(sv, done, p) implies all.contains(p) by {
            if p == bound - 1 {
                assert(all[all.len() - 1] == p);
            } else {
                assert(lower.contains(p));
                let i = choose|i: int| 0 <= i < lower.len() && lower[i] == p;
                assert(all[i] == p);
            }
        }
    }
}

/// What the rounds put out: packages of the subgraph, each once, those that
/// are out by then; and whatever a package needs is out before it.
pub proof fn lemma_emitted(sv: SubgraphView, rounds: nat)
    requires
        sv.wf(),
    ensures
        emitted(sv, rounds).no_duplicates(),
        forall|p: int| emitted(sv, rounds).contains(p) <==> done_after(sv, rounds).contains(p),
        forall|p: int| done_after(sv, rounds).contains(p) ==> sv.packages.contains(p),
        forall|k: int, i: int|
            0 <= k < sv.links.len() && !(#[trigger] sv.links[k]).dev_only && 0 <= i < emitted(
                sv,
                rounds,
            ).len() && #[trigger] emitted(sv, rounds)[i] == sv.links[k].from ==> exists|j: int|
                0 <= j < i && #[trigger] emitted(sv, rounds)[j] == sv.links[k].to,
    decreases rounds,
{
    if rounds > 0 {
        let r = (rounds - 1) as nat;
        let before = emitted(sv, r);
        let done = done_after(sv, r);
        let layer = ready_below(sv, done, sv.universe);
        let all = emitted(sv, rounds);
        lemma_emitted(sv, r);
        lemma_ready_below(sv, done, sv.universe);
        assert forall|p: int| all.contains(p) <==> done_after(sv, rounds).contains(p) by {
            if done_after(sv, rounds).contains(p) {
                if done.contains(p) {
                    let i = choose|i: int| 0 <= i < before.len() && before[i] == p;
                    assert(all[i] == p);
                } else {
                    assert(layer.contains(p));
                    let i = choose|i: int| 0 <= i < layer.len() && layer[i] == p;
                    assert(all[before.len() + i] == p);
                }
            }
        }
        assert forall|k: int, i: int|
            0 <= k < sv.links.len() && !(#[trigger] sv.links[k]).dev_only && 0 <= i < all.len()
                && #[trigger] all[i] == sv.links[k].from implies exists|j: int|
            0 <= j < i && #[trigger] all[j] == sv.links[k].to by {
            if i < before.len() {
                let j = choose|j: int| 0 <= j < i && #[trigger] before[j] == sv.links[k].to;
                assert(all[j] == sv.links[k].to);
            } else {
                let j = choose|j: int| 0 <= j < before.len() && before[j] == sv.links[k].to as int;
                assert(all[j] == sv.links[k].to);
            }
        }
    }
}

/// Once a round puts out nothing, no later round does.
pub proof fn lemma_rounds_settle(sv: SubgraphView, at: nat, later: nat)
    requires
        sv.wf(),
        at <= later,
        ready_below(sv, done_after(sv, at), sv.universe).len() == 0,
    ensures
        done_after(sv, later) == done_after(sv, at),
        emitted(sv, later) == emitted(sv, at),
    decreases later,
{
    if at < later {
        lemma_rounds_settle(sv, at, (later - 1) as nat);
        let done = done_after(sv, at);
        lemma_ready_below(sv, done, sv.universe);
        assert forall|p: int| !ready(sv, done, p) by {
            if ready(sv, done, p) {
                assert(ready_below(sv, done, sv.universe).contains(p));
            }
        }
    }
}

/// More values than there are numbers below `n` cannot all be different
/// numbers below `n`.
proof fn lemma_repeat(s: Seq<int>, n: nat) -> (at: (int, int))
    requires
        s.len() > n,
        forall|i: int| 0 <= i < s.len() ==> 0 <= #[trigger] s[i] < n,
    ensures
        0 <= at.0 < at.1 < s.len(),
        s[at.0] == s[at.1],
{
    if s.no_duplicates() {
        s.unique_seq_to_set();
        lemma_int_range(0, n as int);
        lemma_len_subset(s.to_set(), set_int_range(0, n as int));
    }
    let (i, j) = choose|i: int, j: int|
        0 <= i < s.len() && 0 <= j < s.len() && i != j && s[i] == s[j];
    if i < j {
        (i, j)
    } else {
        (j, i)
    }
}

/// From a package that is not out after `rounds` rounds, a chain of needs
/// leads through `rounds` more packages of the subgraph.
proof fn lemma_blocked_chain(sv: SubgraphView, p: int, rounds: nat) -> (chain: Seq<int>)
    requires
        sv.wf(),
        sv.packages.contains(p),
        !done_after(sv, rounds).contains(p),
    ensures
        chain.len() == rounds + 1,
        chain[0] == p,
        is_chain(sv, chain),
        forall|i: int| 0 <= i < chain.len() ==> sv.packages.contains(#[trigger] chain[i]),
    decreases rounds,
{
    if rounds == 0 {
        seq![p]
    } else {
        let before = done_after(sv, (rounds - 1) as nat);
        let k = choose|k: int|
            0 <= k < sv.links.len() && !(#[trigger] sv.links[k]).dev_only && sv.links[k].from == p
                && !before.contains(sv.links[k].to as int);
        let q = sv.links[k].to as int;
        let rest = lemma_blocked_chain(sv, q, (rounds - 1) as nat);
        let chain = seq![p] + rest;
        assert forall|i: int| 0 <= i < chain.len() - 1 implies #[trigger] needs_at(
            sv,
            chain,
            i,
        ) by {
            if i > 0 {
                assert(needs_at(sv, rest, i - 1));
            }
        }
        chain
    }
}

/// A package of the subgraph that never comes out lies before a cycle.
pub proof fn lemma_left_out_means_cycle(sv: SubgraphView, p: int)
    requires
        sv.wf(),
        sv.packages.contains(p),
        !build_order(sv).contains(p),
    ensures
        has_cycle(sv),
{
    lemma_emitted(sv, sv.universe);
    let chain = lemma_blocked_chain(sv, p, sv.universe);
    let (i, j) = lemma_repeat(chain, sv.universe);
    let cycle = chain.subrange(i, j + 1);
    assert forall|t: int| 0 <= t < cycle.len() - 1 implies #[trigger] needs_at(sv, cycle, t) by {
        assert(needs_at(sv, chain, i + t));
    }
    assert(is_cycle(sv, cycle));
}

/// No package on a cycle ever comes out.
pub proof fn lemma_cycle_stays_in(sv: SubgraphView, cycle: Seq<int>, rounds: nat, i: int)
    requires
        is_cycle(sv, cycle),
        0 <= i < cycle.len(),
    ensures
        !done_after(sv, rounds).contains(cycle[i]),
    decreases rounds,
{
    if rounds > 0 {
        let here = if i < cycle.len() - 1 {
            i
        } else {
            0
        };
        lemma_cycle_stays_in(sv, cycle, (rounds - 1) as nat, i);
        lemma_cycle_stays_in(sv, cycle, (rounds - 1) as nat, here + 1);
        assert(needs_at(sv, cycle, here));
    }
}

/// The build order holds every package of the subgraph exactly if the
/// subgraph has no cycle.
pub proof fn lemma_complete_iff_acyclic(sv: SubgraphView)
    requires
        sv.wf(),
    ensures
        has_cycle(sv) <==> exists|p: int| sv.packages.contains(p) && !build_order(sv).contains(p),
{
    lemma_emitted(sv, sv.universe);
    if has_cycle(sv) {
        let cycle = choose|cycle: Seq<int>| is_cycle(sv, cycle);
        lemma_cycle_stays_in(sv, cycle, sv.universe, 0);
        assert(needs_at(sv, cycle, 0));
    }
    if exists|p: int| sv.packages.contains(p) && !build_order(sv).contains(p) {
        let p = choose|p: int| sv.packages.contains(p) && !build_order(sv).contains(p);
        lemma_left_out_means_cycle(sv, p);
    }
}

/// Where no package needs itself, directly or through others, the order
/// holds every package of the subgraph once, and nothing else, in either
/// direction.
pub proof fn lemma_order_is_arrangement(sv: SubgraphView, direction: Direction)
    requires
        sv.wf(),
        !has_cycle(sv),
    ensures
        is_arrangement_of(ordering(sv, direction), sv.packages),
{
    let forward = build_order(sv);
    lemma_emitted(sv, sv.universe);
    lemma_complete_iff_acyclic(sv);
    if direction == Direction::Reverse {
        let backward = forward.reverse();
        assert forall|p: int| backward.contains(p) <==> forward.contains(p) by {
            if forward.contains(p) {
                let i = choose|i: int| 0 <= i < forward.len() && forward[i] == p;
                assert(backward[forward.len() - 1 - i] == p);
            }
        }
    }
}

/// In the order, whatever a package needs stands before it in the forward
/// direction and after it in the reverse direction. Development-only links
/// place no demand.
pub proof fn lemma_order_respects_links(sv: SubgraphView, direction: Direction)
    requires
        sv.wf(),
    ensures
        direction == Direction::Forward ==> dependencies_first(sv, ordering(sv, direction)),
        direction == Direction::Reverse ==> dependents_first(sv, ordering(sv, direction)),
{
    lemma_emitted(sv, sv.universe);
}

/// The order in the other direction is the same order read backwards, so
/// turning the direction round twice gives the order back.
pub proof fn lemma_opposite_order_is_reversed(sv: SubgraphView, direction: Direction)
    ensures
        ordering(sv, direction.opposite()) == ordering(sv, direction).reverse(),
        ordering(sv, direction.opposite().opposite()) == ordering(sv, direction),
{
}

/// The ids of a list as numbers.
pub open spec fn ids(list: Seq<usize>) -> Seq<int> {
    list.map_values(|id: usize| id as int)
}

/// Link `j` keeps `p` from being ready: it is not development-only and
/// leads from `p` to a package whose flag in `done` is clear.
spec fn holds_back(sv: SubgraphView, done: Seq<bool>, j: int, p: int) -> bool {
    !sv.links[j].dev_only && sv.links[j].from == p && !done[sv.links[j].to as int]
}

/// One of the first `k` links keeps `p` from being ready.
spec fn held_back(sv: SubgraphView, done: Seq<bool>, k: int, p: int) -> bool {
    exists|j: int| 0 <= j < k && #[trigger] holds_back(sv, done, j, p)
}

/// The list backwards.
fn reversed(list: &Vec<usize>) -> (backward: Vec<usize>)
    ensures
        backward@ == list@.reverse(),
{
    let mut backward: Vec<usize> = Vec::new();
    let mut i: usize = list.len();
    while i > 0
        invariant
            i <= list.len(),
            backward@.len() == list.len() - i,
            forall|j: int| 0 <= j < backward@.len() ==> backward@[j] == list@[list.len() - 1 - j],
        decreases i,
    {
        i -= 1;
        backward.push(list[i]);
    }
    backward
}

/// Puts the packages of `subgraph` in order: dependencies first where
/// `direction` is `Forward`, dependents first where it is `Reverse`.
///
/// The order is built in rounds; each round puts out, by ascending id, every
/// package all of whose needs were put out in earlier rounds. So among
/// packages that do not depend on each other, the one that can be built in
/// an earlier round comes first, and within a round the one with the lower
/// id. The reverse order is this order backwards. Development-only links
/// place no demand on the order. Fails with `CycleDetected` exactly if the
/// other links form a cycle; no package is then left out or put out twice
/// in silence.
pub fn order(subgraph: &ResolvedSubgraph, direction: Direction) -> (result: Result<
    Vec<usize>,
    TopoError,
>)
    ensures
        result is Ok <==> !has_cycle(subgraph@),
        result matches Ok(list) ==> ids(list@) == ordering(subgraph@, direction)
            && is_arrangement_of(ids(list@), subgraph@.packages) && (direction
            == Direction::Forward ==> dependencies_first(subgraph@, ids(list@))) && (direction
            == Direction::Reverse ==> dependents_first(subgraph@, ids(list@))),
        result matches Err(error) ==> error@ == ErrorView::CycleDetected,
{
    let n = subgraph.universe();
    let links = subgraph.links();
    let ghost sv = subgraph@;
    let mut done = clear_flags(n);
    let mut out: Vec<usize> = Vec::new();
    let ghost mut rounds: nat = 0;
    let mut progressing = true;
    while progressing
        invariant
            sv == subgraph@,
            sv.wf(),
            n == sv.universe,
            links@ == sv.links,
            done@.len() == n,
            forall|p: int| 0 <= p < n ==> (#[trigger] done@[p] <==> done_after(sv, rounds).contains(p)),
            ids(out@) == emitted(sv, rounds),
            out@.len() == count_set(done@),
            out@.len() <= n,
            rounds <= out@.len(),
            !progressing ==> ready_below(sv, done_after(sv, rounds), sv.universe).len() == 0,
        decreases
                n - out@.len(),
                if progressing {
                    1int
                } else {
                    0int
                },
    {
        let ghost settled = done_after(sv, rounds);
        let mut blocked = clear_flags(n);
        let mut k: usize = 0;
        while k < links.len()
            invariant
                k <= links.len(),
                links@ == sv.links,
                sv.wf(),
                n == sv.universe,
                done@.len() == n,
                blocked@.len() == n,
                forall|p: int|
                    0 <= p < n ==> (#[trigger] blocked@[p] <==> held_back(sv, done@, k as int, p)),
            decreases links.len() - k,
        {
            let link = links[k];
            let ghost blocked_before = blocked@;
            if !link.dev_only && !done[link.to] {
                blocked.set(link.from, true);
            }
            proof {
                assert forall|p: int| 0 <= p < n implies (#[trigger] blocked@[p] <==> held_back(
                    sv,
                    done@,
                    k + 1,
                    p,
                )) by {
                    if blocked@[p] {
                        if !blocked_before[p] {
                            assert(holds_back(sv, done@, k as int, p));
                        }
                    }
                }
            }
            k += 1;
        }
        let ghost done_before = done@;
        proof {
            assert forall|q: int|
                0 <= q < n && sv.packages.contains(q) && !done_before[q] implies (ready(
                sv,
                settled,
                q,
            ) <==> !#[trigger] blocked@[q]) by {
                if !blocked@[q] {
                    assert forall|j: int|
                        0 <= j < sv.links.len() && !(#[trigger] sv.links[j]).dev_only
                            && sv.links[j].from == q implies settled.contains(
                        sv.links[j].to as int,
                    ) by {
                        if !done_before[sv.links[j].to as int] {
                            assert(holds_back(sv, done_before, j, q));
                        }
                    }
                }
            }
        }
        let start = out.len();
        let mut p: usize = 0;
        while p < n
            invariant
                p <= n,
                sv == subgraph@,
                sv.wf(),
                n == sv.universe,
                done@.len() == n,
                done_before.len() == n,
                blocked@.len() == n,
                settled == done_after(sv, rounds),
                forall|q: int| 0 <= q < n ==> (#[trigger] done_before[q] <==> settled.contains(q)),
                forall|q: int|
                    0 <= q < n && sv.packages.contains(q) && !done_before[q] ==> (ready(
                        sv,
                        settled,
                        q,
                    ) <==> !#[trigger] blocked@[q]),
                forall|q: int| p <= q < n ==> #[trigger] done@[q] == done_before[q],
                forall|q: int|
                    0 <= q < p ==> (#[trigger] done@[q] <==> (done_before[q] || ready(
                        sv,
                        settled,
                        q,
                    ))),
                ids(out@) == emitted(sv, rounds) + ready_below(sv, settled, p as nat),
                out@.len() == count_set(done@),
                start == emitted(sv, rounds).len(),
            decreases n - p,
        {
            let ghost out_before = out@;
            if subgraph.contains(p) && !done[p] && !blocked[p] {
                proof {
                    lemma_count_set_update(done@, p as int);
                }
                out.push(p);
                done.set(p, true);
                proof {
                    assert(ids(out@) =~= ids(out_before).push(p as int));
                }
            }
            p += 1;
        }
        proof {
            lemma_count_set_bound(done@);
            lemma_ready_below(sv, settled, sv.universe);
        }
        if out.len() == start {
            progressing = false;
            proof {
                assert forall|q: int| 0 <= q < n implies !ready(sv, settled, q) by {
                    if ready(sv, settled, q) {
                        assert(ready_below(sv, settled, sv.universe).contains(q));
                    }
                }
            }
        } else {
            proof {
                rounds = rounds + 1;
            }
        }
    }
    proof {
        lemma_rounds_settle(sv, rounds, sv.universe);
        lemma_emitted(sv, sv.universe);
        lemma_complete_iff_acyclic(sv);
    }
    let mut p: usize = 0;
    while p < n
        invariant
            p <= n,
            sv == subgraph@,
            sv.wf(),
            n == sv.universe,
            done@.len() == n,
            ids(out@) == build_order(sv),
            has_cycle(sv) <==> exists|q: int|
                sv.packages.contains(q) && !build_order(sv).contains(q),
            forall|q: int| 0 <= q < n ==> (#[trigger] done@[q] <==> build_order(sv).contains(q)),
            forall|q: int| 0 <= q < p && sv.packages.contains(q) ==> #[trigger] done@[q],
        decreases n - p,
    {
        if subgraph.contains(p) && !done[p] {
            return Err(TopoError::CycleDetected);
        }
        p += 1;
    }
    proof {
        assert forall|q: int| sv.packages.contains(q) implies build_order(sv).contains(q) by {
            assert(done@[q]);
        }
        lemma_order_is_arrangement(sv, direction);
    }
    match direction {
        Direction::Forward => Ok(out),
        Direction::Reverse => {
            let backward = reversed(&out);
            Ok(backward)
        },
    }
}

} // verus!
