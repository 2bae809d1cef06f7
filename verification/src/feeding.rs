//! The feeding phase on the lists of a cell: the herbivores graze in turn,
//! the carnivores hunt in turn.

use vstd::prelude::*;
use crate::animal::Carnivore;
use crate::animal::Health;
use crate::animal::Herbivore;
use crate::animal::SpeciesParams;
use crate::animal::carnivore_constants;
use crate::animal::consistent;
use crate::animal::fed;
use crate::animal::fitness_of;
use crate::animal::gorged;
use crate::animal::herbivore_constants;
use crate::animal::hunted;
use crate::animal::lemma_fitness_bounds;
use crate::animal::prey_records;
use crate::herd::all_consistent;
use crate::herd::healthy;
use crate::herd::lemma_selection_healthy;
use crate::herd::living;
use crate::herd::ranked;
use crate::herd::records;
use crate::herd::refreshed;
use crate::herd::settled;
use crate::herd::unmoved;
use crate::units::lowered;
use crate::util::fractions;

verus! {

/// The food that is left of `fodder` once `k` individuals of appetite
/// `p.f` have eaten in turn.
pub open spec fn pasture(p: SpeciesParams, fodder: u64, k: int) -> int {
    lowered(fodder as int, k * p.f)
}

/// Grazing never takes the food below zero, and never adds to it.
pub proof fn lemma_pasture_bounds(p: SpeciesParams, fodder: u64, k: int)
    requires
        0 <= k,
    ensures
        0 <= pasture(p, fodder, k) <= fodder,
{
    assert(0 <= k * p.f) by (nonlinear_arith)
        requires
            0 <= k,
            0 <= p.f,
    ;
}

/// The list after its members have eaten in turn from `fodder`: each takes
/// its appetite, or what the ones before it have left.
pub open spec fn grazed(list: Seq<Health>, p: SpeciesParams, fodder: u64) -> Seq<Health> {
    Seq::new(list.len(), |i: int| fed(list[i], p, pasture(p, fodder, i) as u64))
}

/// The herbivores eat in turn from `fodder`; returns what is left.
pub fn graze_in_turn(herd: &mut Vec<Herbivore>, fodder: u64) -> (left: u64)
    ensures
        records(final(herd)@) == grazed(records(old(herd)@), herbivore_constants(), fodder),
        left == pasture(herbivore_constants(), fodder, old(herd)@.len() as int),
        left <= fodder,
        final(herd)@.len() == old(herd)@.len(),
        healthy(records(old(herd)@), herbivore_constants()) ==> healthy(
            records(final(herd)@),
            herbivore_constants(),
        ),
        unmoved(records(old(herd)@)) ==> unmoved(records(final(herd)@)),
        settled(records(old(herd)@)) ==> settled(records(final(herd)@)),
{
    let ghost before = records(herd@);
    let ghost p = herbivore_constants();
    let n: usize = herd.len();
    let mut left: u64 = fodder;
    let mut i: usize = 0;
    while i < n
        invariant
            i <= n,
            n == before.len(),
            herd@.len() == n,
            p == herbivore_constants(),
            left == pasture(p, fodder, i as int),
            left <= fodder,
            forall|j: int|
                0 <= j < i ==> (#[trigger] herd@[j]).health == fed(
                    before[j],
                    p,
                    pasture(p, fodder, j) as u64,
                ),
            forall|j: int| i <= j < n ==> (#[trigger] herd@[j]).health == before[j],
        decreases n - i,
    {
        let mut a: Herbivore = herd[i];
        left = a.eat_fodder(left);
        herd.set(i, a);
        proof {
            assert((i + 1) * p.f == i * p.f + p.f) by (nonlinear_arith);
            assert(0 <= i * p.f) by (nonlinear_arith)
                requires
                    0 <= i,
                    0 <= p.f,
            ;
        }
        i = i + 1;
    }
    assert(records(herd@) =~= grazed(before, p, fodder));
    assert forall|j: int| 0 <= j < n implies (healthy(before, p) ==> (#[trigger] records(herd@)[j]).is_alive
        && consistent(records(herd@)[j], p)) && (unmoved(before) ==> !records(herd@)[j].has_moved)
        && (settled(before) ==> !records(herd@)[j].has_moved && !records(herd@)[j].newborn) by {
        assert(records(herd@)[j] == fed(before[j], p, pasture(p, fodder, j) as u64));
    }
    left
}

/// The fitness by which a carnivore hunts.
pub open spec fn hunter_fitness(h: Health) -> u64 {
    fitness_of(carnivore_constants(), h.age, h.weight) as u64
}

/// The prey after one hunter has gone through it, the killed still in it.
pub open spec fn raided(prey: Seq<Health>, draws: Seq<u64>, hunter: Health) -> Seq<Health> {
    Seq::new(prey.len(), |i: int| hunted(prey, draws, hunter_fitness(hunter), i))
}

/// The prey that is left once the first `c` hunters of the pack have hunted
/// in turn, hunter `j` with the draws `draws[j]`: what a hunter kills is
/// gone before the next one starts.
pub open spec fn prey_after(pack: Seq<Health>, herd: Seq<Health>, draws: Seq<Seq<u64>>, c: int) -> Seq<
    Health,
>
    decreases c,
{
    if c <= 0 {
        herd
    } else {
        living(raided(prey_after(pack, herd, draws, c - 1), draws[c - 1], pack[c - 1]))
    }
}

/// The pack after all of it has hunted in turn.
pub open spec fn pack_after(pack: Seq<Health>, herd: Seq<Health>, draws: Seq<Seq<u64>>) -> Seq<
    Health,
> {
    Seq::new(pack.len(), |c: int| gorged(pack[c], prey_after(pack, herd, draws, c), draws[c]))
}

/// The draws of each hunter, as sequences.
pub open spec fn tapes(draws: Seq<Vec<u64>>) -> Seq<Seq<u64>> {
    draws.map_values(|v: Vec<u64>| v@)
}

/// The prey only ever gets less, and what is left of a healthy herd is
/// healthy.
pub proof fn lemma_prey_after(pack: Seq<Health>, herd: Seq<Health>, draws: Seq<Seq<u64>>, c: int)
    requires
        healthy(herd, herbivore_constants()),
    ensures
        prey_after(pack, herd, draws, c).len() <= herd.len(),
        healthy(prey_after(pack, herd, draws, c), herbivore_constants()),
        unmoved(herd) ==> unmoved(prey_after(pack, herd, draws, c)),
    decreases c,
{
    if c > 0 {
        lemma_prey_after(pack, herd, draws, c - 1);
        let prev = prey_after(pack, herd, draws, c - 1);
        let r = raided(prev, draws[c - 1], pack[c - 1]);
        assert forall|i: int| 0 <= i < r.len() implies consistent(
            #[trigger] r[i],
            herbivore_constants(),
        ) && (unmoved(herd) ==> !r[i].has_moved) by {
            lemma_fitness_bounds(herbivore_constants(), prev[i].age, prev[i].weight);
            if unmoved(herd) {
                assert(!prev[i].has_moved);
            }
        }
        lemma_selection_healthy(r, herbivore_constants());
        r.lemma_filter_len(|h: Health| h.is_alive);
        if unmoved(herd) {
            crate::herd::lemma_filter_keeps(r, |h: Health| h.is_alive, |h: Health| !h.has_moved);
        }
    }
}

/// The pack as it goes hunting: in order of fitness, from the fittest down.
pub open spec fn pack_ready(pack: Seq<Health>) -> Seq<Health> {
    ranked(refreshed(pack, carnivore_constants()), false)
}

/// The herd as it is hunted: having eaten from `fodder` in the order
/// given, and then put in order of fitness, from the weakest up.
pub open spec fn herd_fed(order: Seq<Herbivore>, fodder: u64) -> Seq<Health> {
    ranked(
        refreshed(grazed(records(order), herbivore_constants(), fodder), herbivore_constants()),
        true,
    )
}

/// The herd and the pack after feeding are what comes of these residents
/// and this food when the herbivores eat in the order `order`, some
/// rearrangement of them, and the carnivores then hunt with the draws
/// `draws`.
pub open spec fn fed_with(
    herbivores: Seq<Herbivore>,
    pack: Seq<Health>,
    fodder: u64,
    herd_after: Seq<Health>,
    pack_after_it: Seq<Health>,
    order: Seq<Herbivore>,
    draws: Seq<Seq<u64>>,
) -> bool {
    &&& order.to_multiset() == herbivores.to_multiset()
    &&& forall|c: int| 0 <= c < draws.len() ==> fractions(#[trigger] draws[c])
    &&& draws.len() == pack.len()
    &&& herd_after == prey_after(pack_ready(pack), herd_fed(order, fodder), draws, pack.len() as int)
    &&& pack_after_it == pack_after(pack_ready(pack), herd_fed(order, fodder), draws)
}

/// The living herbivores of the list, the dead removed.
pub fn keep_living(herd: &mut Vec<Herbivore>)
    ensures
        records(final(herd)@) == living(records(old(herd)@)),
{
    let ghost all = records(herd@);
    let n: usize = herd.len();
    let mut kept: Vec<Herbivore> = Vec::new();
    let mut i: usize = 0;
    while i < n
        invariant
            i <= n,
            n == herd@.len(),
            all == records(herd@),
            records(kept@) == living(all.take(i as int)),
        decreases n - i,
    {
        let a: Herbivore = herd[i];
        proof {
            assert(all.take(i as int + 1) =~= all.take(i as int).push(a.health));
            all.take(i as int).lemma_filter_push(a.health, |h: Health| h.is_alive);
        }
        if a.health.is_alive {
            let ghost earlier = records(kept@);
            kept.push(a);
            assert(records(kept@) =~= earlier.push(a.health));
        }
        i = i + 1;
    }
    assert(all.take(n as int) =~= all);
    *herd = kept;
}

/// The pack hunts in turn through the herd, hunter `c` with the draws
/// `draws[c]`, one for each herbivore that is left when its turn comes.
/// Returns the number of herbivores killed; they are gone from the herd.
pub fn hunt_in_turn(
    pack: &mut Vec<Carnivore>,
    herd: &mut Vec<Herbivore>,
    draws: &Vec<Vec<u64>>,
) -> (killed: usize)
    requires
        healthy(records(old(herd)@), herbivore_constants()),
        all_consistent(records(old(pack)@), carnivore_constants()),
        old(pack)@.len() <= draws@.len(),
        forall|c: int| 0 <= c < old(pack)@.len() ==> old(herd)@.len() <= (#[trigger] draws@[c])@.len(),
        old(herd)@.len() <= u32::MAX,
    ensures
        records(final(herd)@) == prey_after(
            records(old(pack)@),
            records(old(herd)@),
            tapes(draws@),
            old(pack)@.len() as int,
        ),
        records(final(pack)@) == pack_after(records(old(pack)@), records(old(herd)@), tapes(draws@)),
        final(herd)@.len() + killed == old(herd)@.len(),
        healthy(records(final(herd)@), herbivore_constants()),
        all_consistent(records(final(pack)@), carnivore_constants()),
        forall|c: int|
            0 <= c < final(pack)@.len() ==> (#[trigger] records(final(pack)@)[c]).is_alive == records(
                old(pack)@,
            )[c].is_alive && records(final(pack)@)[c].has_moved == records(old(pack)@)[c].has_moved,
        final(pack)@.len() == old(pack)@.len(),
        unmoved(records(old(herd)@)) ==> unmoved(records(final(herd)@)),
{
    let ghost pack0 = records(pack@);
    let ghost herd0 = records(herd@);
    let ghost tape = tapes(draws@);
    let n: usize = pack.len();
    let total: usize = herd.len();
    let mut c: usize = 0;
    while c < n
        invariant
            c <= n,
            n == pack0.len(),
            pack@.len() == n,
            n <= draws@.len(),
            tape == tapes(draws@),
            total == herd0.len(),
            total <= u32::MAX,
            forall|k: int| 0 <= k < n ==> total <= (#[trigger] draws@[k])@.len(),
            healthy(herd0, herbivore_constants()),
            all_consistent(pack0, carnivore_constants()),
            records(herd@) == prey_after(pack0, herd0, tape, c as int),
            herd@.len() <= total,
            forall|j: int|
                0 <= j < c ==> (#[trigger] pack@[j]).health == gorged(
                    pack0[j],
                    prey_after(pack0, herd0, tape, j),
                    tape[j],
                ),
            forall|j: int| c <= j < n ==> (#[trigger] pack@[j]).health == pack0[j],
        decreases n - c,
    {
        let mut hunter: Carnivore = pack[c];
        let ghost prev = records(herd@);
        proof {
            lemma_prey_after(pack0, herd0, tape, c as int);
            assert(prey_records(herd@) =~= prev);
            assert(hunter.health == pack0[c as int]);
            assert forall|i: int| 0 <= i < herd@.len() implies consistent(
                #[trigger] herd@[i].health,
                herbivore_constants(),
            ) by {
                assert(prev[i] == herd@[i].health);
            }
            assert(tape[c as int] == draws@[c as int]@);
        }
        hunter.kill_prey(herd, &draws[c]);
        pack.set(c, hunter);
        proof {
            assert(records(herd@) =~= raided(prev, tape[c as int], pack0[c as int]));
        }
        keep_living(herd);
        proof {
            lemma_prey_after(pack0, herd0, tape, c as int + 1);
        }
        c = c + 1;
    }
    proof {
        lemma_prey_after(pack0, herd0, tape, n as int);
        assert(records(pack@) =~= pack_after(pack0, herd0, tape));
        assert forall|j: int| 0 <= j < n implies consistent(
            #[trigger] records(pack@)[j],
            carnivore_constants(),
        ) && records(pack@)[j].is_alive == pack0[j].is_alive && records(pack@)[j].has_moved
            == pack0[j].has_moved by {
            lemma_fitness_bounds(carnivore_constants(), pack0[j].age, pack0[j].weight);
        }
    }
    total - herd.len()
}

} // verus!
