//! The individuals of one species in one cell, as a list, and the yearly
//! phases on such a list. Each phase is stated over the list of records.

use vstd::prelude::*;
use crate::animal::AnimalTraits;
use crate::animal::Health;
use crate::animal::SpeciesParams;
use crate::animal::consistent;
use crate::animal::delivered;
use crate::animal::delivers;
use crate::animal::fresh;
use crate::animal::grown;
use crate::animal::judged;
use crate::animal::lemma_fitness_bounds;
use crate::animal::newborn_of;
use crate::animal::roamed;
use crate::animal::slimmed;
use crate::landscape::Coord;
use crate::units::UNIT;

verus! {

/// The records of a list of individuals.
pub open spec fn records<A: AnimalTraits>(list: Seq<A>) -> Seq<Health> {
    list.map_values(|a: A| a.record())
}

/// Every cached fitness in the list is the fitness of its record.
pub open spec fn all_consistent(list: Seq<Health>, p: SpeciesParams) -> bool {
    forall|i: int| 0 <= i < list.len() ==> consistent(#[trigger] list[i], p)
}

/// A record after the ageing phase: a newborn is passed over.
pub open spec fn aged_one(h: Health) -> Health {
    if h.newborn {
        h
    } else {
        grown(h)
    }
}

/// The list after the ageing phase.
pub open spec fn aged(list: Seq<Health>) -> Seq<Health> {
    list.map_values(|h: Health| aged_one(h))
}

/// A record after the weight-loss phase: a newborn is passed over.
pub open spec fn thinned_one(h: Health, p: SpeciesParams) -> Health {
    if h.newborn {
        h
    } else {
        slimmed(h, p)
    }
}

/// The list after the weight-loss phase.
pub open spec fn thinned(list: Seq<Health>, p: SpeciesParams) -> Seq<Health> {
    list.map_values(|h: Health| thinned_one(h, p))
}

/// The list after each member has stood the trial of death with its own
/// draw, the dead still in it.
pub open spec fn tried(list: Seq<Health>, p: SpeciesParams, draws: Seq<u64>) -> Seq<Health> {
    Seq::new(list.len(), |i: int| judged(list[i], p, draws[i]))
}

/// The members of the list that are alive, in their order.
pub open spec fn living(list: Seq<Health>) -> Seq<Health> {
    list.filter(|h: Health| h.is_alive)
}

/// The list after the death phase: those that the trial left alive.
pub open spec fn survivors(list: Seq<Health>, p: SpeciesParams, draws: Seq<u64>) -> Seq<Health> {
    living(tried(list, p, draws))
}

/// No one without weight survives the death phase.
pub proof fn lemma_survivors_have_weight(list: Seq<Health>, p: SpeciesParams, draws: Seq<u64>)
    ensures
        survivors(list, p, draws).len() <= list.len(),
        forall|i: int|
            0 <= i < survivors(list, p, draws).len() ==> {
                &&& (#[trigger] survivors(list, p, draws)[i]).weight > 0
                &&& survivors(list, p, draws)[i].is_alive
            },
{
    let t = tried(list, p, draws);
    let alive = |h: Health| h.is_alive;
    t.lemma_filter_len(alive);
    assert forall|i: int| 0 <= i < survivors(list, p, draws).len() implies {
        &&& (#[trigger] survivors(list, p, draws)[i]).weight > 0
        &&& survivors(list, p, draws)[i].is_alive
    } by {
        let s = survivors(list, p, draws)[i];
        t.lemma_filter_pred(alive, i);
        assert(t.filter(alive).contains(s));
        t.lemma_filter_contains_rev(alive, s);
        let j = choose|j: int| 0 <= j < t.len() && t[j] == s;
        assert(t[j] == judged(list[j], p, draws[j]));
    }
}

/// The ageing phase: everyone but the newborn is a year older.
pub fn age_all<A: AnimalTraits + Copy>(list: &mut Vec<A>)
    ensures
        records(final(list)@) == aged(records(old(list)@)),
        final(list)@.len() == old(list)@.len(),
        healthy(records(old(list)@), A::species()) ==> healthy(records(final(list)@), A::species()),
        unmoved(records(old(list)@)) ==> unmoved(records(final(list)@)),
{
    let ghost before = list@;
    let n: usize = list.len();
    let mut i: usize = 0;
    while i < n
        invariant
            i <= n,
            n == before.len(),
            list@.len() == n,
            forall|j: int| 0 <= j < i ==> (#[trigger] list@[j]).record() == aged_one(before[j].record()),
            forall|j: int| i <= j < n ==> (#[trigger] list@[j]) == before[j],
        decreases n - i,
    {
        let mut a: A = list[i];
        if !a.health().newborn {
            a.aging();
            list.set(i, a);
        }
        i = i + 1;
    }
    assert(records(list@) =~= aged(records(before)));
    assert(healthy(records(before), A::species()) ==> healthy(records(list@), A::species())) by {
        if healthy(records(before), A::species()) {
            assert forall|j: int| 0 <= j < n implies (#[trigger] records(list@)[j]).is_alive
                && consistent(records(list@)[j], A::species()) by {
                assert(records(before)[j].is_alive);
            }
        }
    }
    assert(unmoved(records(before)) ==> unmoved(records(list@))) by {
        if unmoved(records(before)) {
            assert forall|j: int| 0 <= j < n implies !(#[trigger] records(list@)[j]).has_moved by {
                assert(!records(before)[j].has_moved);
            }
        }
    }
}

/// The weight-loss phase: everyone but the newborn loses the yearly share.
pub fn slim_all<A: AnimalTraits + Copy>(list: &mut Vec<A>)
    ensures
        records(final(list)@) == thinned(records(old(list)@), A::species()),
        final(list)@.len() == old(list)@.len(),
        healthy(records(old(list)@), A::species()) ==> healthy(records(final(list)@), A::species()),
        unmoved(records(old(list)@)) ==> unmoved(records(final(list)@)),
{
    let ghost before = list@;
    let n: usize = list.len();
    let mut i: usize = 0;
    while i < n
        invariant
            i <= n,
            n == before.len(),
            list@.len() == n,
            forall|j: int|
                0 <= j < i ==> (#[trigger] list@[j]).record() == thinned_one(
                    before[j].record(),
                    A::species(),
                ),
            forall|j: int| i <= j < n ==> (#[trigger] list@[j]) == before[j],
        decreases n - i,
    {
        let mut a: A = list[i];
        if !a.health().newborn {
            a.lose_weight();
            list.set(i, a);
        }
        i = i + 1;
    }
    assert(records(list@) =~= thinned(records(before), A::species()));
    assert(healthy(records(before), A::species()) ==> healthy(records(list@), A::species())) by {
        if healthy(records(before), A::species()) {
            assert forall|j: int| 0 <= j < n implies (#[trigger] records(list@)[j]).is_alive
                && consistent(records(list@)[j], A::species()) by {
                assert(records(before)[j].is_alive);
            }
        }
    }
    assert(unmoved(records(before)) ==> unmoved(records(list@))) by {
        if unmoved(records(before)) {
            assert forall|j: int| 0 <= j < n implies !(#[trigger] records(list@)[j]).has_moved by {
                assert(!records(before)[j].has_moved);
            }
        }
    }
}

/// The death phase, given one draw for each member: everyone stands the
/// trial, and the dead leave the list. Returns how many died.
pub fn cull<A: AnimalTraits + Copy>(list: &mut Vec<A>, draws: &Vec<u64>) -> (dead: usize)
    requires
        all_consistent(records(old(list)@), A::species()),
        old(list)@.len() <= draws@.len(),
    ensures
        records(final(list)@) == survivors(records(old(list)@), A::species(), draws@),
        healthy(records(final(list)@), A::species()),
        unmoved(records(old(list)@)) ==> unmoved(records(final(list)@)),
        dead == old(list)@.len() - final(list)@.len(),
        final(list)@.len() <= old(list)@.len(),
{
    let ghost before = records(list@);
    let ghost after = tried(before, A::species(), draws@);
    let n: usize = list.len();
    let mut kept: Vec<A> = Vec::new();
    let mut i: usize = 0;
    while i < n
        invariant
            i <= n,
            n == before.len(),
            n <= draws@.len(),
            list@.len() == n,
            before == records(list@),
            after == tried(before, A::species(), draws@),
            all_consistent(before, A::species()),
            records(kept@) == living(after.take(i as int)),
            all_consistent(records(kept@), A::species()),
            kept@.len() <= i,
        decreases n - i,
    {
        let mut a: A = list[i];
        assert(a.record() == before[i as int]);
        a.death(draws[i]);
        proof {
            assert(after.take(i as int + 1) =~= after.take(i as int).push(a.record()));
            after.take(i as int).lemma_filter_push(a.record(), |h: Health| h.is_alive);
        }
        if a.is_alive() {
            let ghost earlier = records(kept@);
            kept.push(a);
            proof {
            assert(records(kept@) =~= earlier.push(a.record()));
            lemma_fitness_bounds(A::species(), before[i as int].age, before[i as int].weight);
            assert(consistent(a.record(), A::species()));
            assert forall|j: int| 0 <= j < records(kept@).len() implies consistent(
                #[trigger] records(kept@)[j],
                A::species(),
            ) by {
                if j < earlier.len() {
                    assert(records(kept@)[j] == earlier[j]);
                }
            }
            }
        }
        i = i + 1;
    }
    assert(after.take(n as int) =~= after);
    proof {
        lemma_survivors_have_weight(before, A::species(), draws@);
        if unmoved(before) {
            assert forall|j: int| 0 <= j < after.len() implies !(#[trigger] after[j]).has_moved by {
                assert(!before[j].has_moved);
            }
            lemma_filter_keeps(after, |h: Health| h.is_alive, |h: Health| !h.has_moved);
        }
    }
    *list = kept;
    n - list.len()
}

/// The list with every cached fitness filled in.
pub open spec fn refreshed(list: Seq<Health>, p: SpeciesParams) -> Seq<Health> {
    list.map_values(|h: Health| fresh(h, p))
}

/// Fills in every cached fitness.
pub fn refresh_all<A: AnimalTraits + Copy>(list: &mut Vec<A>)
    requires
        all_consistent(records(old(list)@), A::species()),
    ensures
        records(final(list)@) == refreshed(records(old(list)@), A::species()),
        all_consistent(records(final(list)@), A::species()),
        all_alive(records(old(list)@)) ==> all_alive(records(final(list)@)),
        unmoved(records(old(list)@)) ==> unmoved(records(final(list)@)),
        final(list)@.len() == old(list)@.len(),
{
    let ghost before = list@;
    let n: usize = list.len();
    let mut i: usize = 0;
    while i < n
        invariant
            i <= n,
            n == before.len(),
            list@.len() == n,
            all_consistent(records(before), A::species()),
            forall|j: int|
                0 <= j < i ==> (#[trigger] list@[j]).record() == fresh(
                    before[j].record(),
                    A::species(),
                ),
            forall|j: int| i <= j < n ==> (#[trigger] list@[j]) == before[j],
        decreases n - i,
    {
        let mut a: A = list[i];
        assert(a.record() == records(before)[i as int]);
        a.get_fitness();
        list.set(i, a);
        i = i + 1;
    }
    assert(records(list@) =~= refreshed(records(before), A::species()));
    assert forall|j: int| 0 <= j < records(list@).len() implies consistent(
        #[trigger] records(list@)[j],
        A::species(),
    ) && (all_alive(records(before)) ==> records(list@)[j].is_alive) && (unmoved(records(before))
        ==> !records(list@)[j].has_moved) by {
        lemma_fitness_bounds(A::species(), before[j].record().age, before[j].record().weight);
        if all_alive(records(before)) {
            assert(records(before)[j].is_alive);
        }
        if unmoved(records(before)) {
            assert(!records(before)[j].has_moved);
        }
    }
}

/// The parents after the breeding phase: each has made its attempt among
/// `n_same` of its species, with its own draw and its own sampled birth
/// weight.
pub open spec fn parents(
    list: Seq<Health>,
    p: SpeciesParams,
    n_same: u32,
    draws: Seq<u64>,
    weights: Seq<u64>,
) -> Seq<Health> {
    Seq::new(list.len(), |i: int| delivered(list[i], p, n_same, draws[i], weights[i]))
}

/// The offspring of the first `k` members of the list, in the order of
/// their parents.
pub open spec fn litter(
    list: Seq<Health>,
    p: SpeciesParams,
    n_same: u32,
    draws: Seq<u64>,
    weights: Seq<u64>,
    k: int,
) -> Seq<Health>
    decreases k,
{
    if k <= 0 {
        Seq::empty()
    } else if delivers(list[k - 1], p, n_same, draws[k - 1], weights[k - 1]) {
        litter(list, p, n_same, draws, weights, k - 1).push(newborn_of(p, weights[k - 1]))
    } else {
        litter(list, p, n_same, draws, weights, k - 1)
    }
}

/// The list after the breeding phase: the parents, then this year's
/// offspring. The number that counts as "of the same species" is the length
/// of the list before the phase.
pub open spec fn bred(list: Seq<Health>, p: SpeciesParams, draws: Seq<u64>, weights: Seq<u64>) -> Seq<
    Health,
> {
    let n = list.len() as u32;
    parents(list, p, n, draws, weights) + litter(list, p, n, draws, weights, list.len() as int)
}

/// Where no one of the first `k` delivers, there is no offspring.
pub proof fn lemma_no_births_no_litter(
    list: Seq<Health>,
    p: SpeciesParams,
    n_same: u32,
    draws: Seq<u64>,
    weights: Seq<u64>,
    k: int,
)
    requires
        forall|i: int| 0 <= i < k ==> !delivers(#[trigger] list[i], p, n_same, draws[i], weights[i]),
    ensures
        litter(list, p, n_same, draws, weights, k).len() == 0,
    decreases k,
{
    if k > 0 {
        lemma_no_births_no_litter(list, p, n_same, draws, weights, k - 1);
    }
}

/// No parent has more than one offspring in a year.
pub proof fn lemma_litter_len(
    list: Seq<Health>,
    p: SpeciesParams,
    n_same: u32,
    draws: Seq<u64>,
    weights: Seq<u64>,
    k: int,
)
    requires
        0 <= k,
    ensures
        litter(list, p, n_same, draws, weights, k).len() <= k,
    decreases k,
{
    if k > 0 {
        lemma_litter_len(list, p, n_same, draws, weights, k - 1);
    }
}

/// The breeding phase, given one draw and one sampled birth weight for each
/// member. Returns the number of births.
pub fn breed<A: AnimalTraits + Copy>(list: &mut Vec<A>, draws: &Vec<u64>, weights: &Vec<u64>) -> (born:
    usize)
    requires
        all_consistent(records(old(list)@), A::species()),
        old(list)@.len() <= draws@.len(),
        old(list)@.len() <= weights@.len(),
        old(list)@.len() <= u32::MAX,
    ensures
        records(final(list)@) == bred(records(old(list)@), A::species(), draws@, weights@),
        all_consistent(records(final(list)@), A::species()),
        all_alive(records(old(list)@)) ==> all_alive(records(final(list)@)),
        unmoved(records(old(list)@)) ==> unmoved(records(final(list)@)),
        final(list)@.len() == old(list)@.len() + born,
        born <= old(list)@.len(),
{
    let ghost before = records(list@);
    let n: usize = list.len();
    let n_same: u32 = n as u32;
    let p = A::params();
    let mut young: Vec<A> = Vec::new();
    let mut i: usize = 0;
    while i < n
        invariant
            i <= n,
            n == before.len(),
            n == n_same,
            n <= draws@.len(),
            n <= weights@.len(),
            list@.len() == n,
            p == A::species(),
            all_consistent(before, A::species()),
            forall|j: int|
                0 <= j < i ==> (#[trigger] list@[j]).record() == delivered(
                    before[j],
                    A::species(),
                    n_same,
                    draws@[j],
                    weights@[j],
                ),
            forall|j: int| i <= j < n ==> (#[trigger] list@[j]).record() == before[j],
            records(young@) == litter(before, A::species(), n_same, draws@, weights@, i as int),
            young@.len() <= i,
        decreases n - i,
    {
        let mut a: A = list[i];
        let outcome = a.give_birth(n_same, draws[i], weights[i]);
        list.set(i, a);
        if outcome.given_birth {
            let mut cub: Health = Health::found(&p, weights[i], 0);
            cub.newborn = true;
            let ghost earlier = records(young@);
            young.push(A::from_health(cub));
            assert(records(young@) =~= earlier.push(cub));
        }
        i = i + 1;
    }
    let ghost elders = records(list@);
    let ghost cubs = records(young@);
    proof {
        assert(elders =~= parents(before, A::species(), n_same, draws@, weights@));
        assert forall|j: int| 0 <= j < elders.len() implies consistent(
            #[trigger] elders[j],
            A::species(),
        ) by {
            lemma_fitness_bounds(A::species(), before[j].age, before[j].weight);
        }
        lemma_litter_consistent(before, A::species(), n_same, draws@, weights@, n as int);
    }
    let born: usize = young.len();
    list.append(&mut young);
    proof {
        assert(records(list@) =~= elders + cubs);
        if all_alive(before) {
            assert forall|j: int| 0 <= j < records(list@).len() implies (#[trigger] records(
                list@,
            )[j]).is_alive by {
                if j < elders.len() {
                    assert(before[j].is_alive);
                    assert(records(list@)[j] == elders[j]);
                } else {
                    assert(records(list@)[j] == cubs[j - elders.len()]);
                }
            }
        }
        if unmoved(before) {
            assert forall|j: int| 0 <= j < records(list@).len() implies !(#[trigger] records(
                list@,
            )[j]).has_moved by {
                if j < elders.len() {
                    assert(!before[j].has_moved);
                    assert(records(list@)[j] == elders[j]);
                } else {
                    assert(records(list@)[j] == cubs[j - elders.len()]);
                }
            }
        }
    }
    born
}

/// Every newborn comes with the fitness of its age and weight.
pub proof fn lemma_litter_consistent(
    list: Seq<Health>,
    p: SpeciesParams,
    n_same: u32,
    draws: Seq<u64>,
    weights: Seq<u64>,
    k: int,
)
    ensures
        all_consistent(litter(list, p, n_same, draws, weights, k), p),
        forall|i: int|
            0 <= i < litter(list, p, n_same, draws, weights, k).len() ==> {
                &&& (#[trigger] litter(list, p, n_same, draws, weights, k)[i]).newborn
                &&& litter(list, p, n_same, draws, weights, k)[i].age == 0
                &&& litter(list, p, n_same, draws, weights, k)[i].is_alive
                &&& !litter(list, p, n_same, draws, weights, k)[i].has_moved
            },
    decreases k,
{
    if k > 0 {
        lemma_litter_consistent(list, p, n_same, draws, weights, k - 1);
        lemma_fitness_bounds(p, 0, weights[k - 1]);
    }
}

/// A record after the staging of migrations: a newborn stays, and its year
/// of birth is over; anyone else decides with its draw, and is marked if it
/// leaves.
pub open spec fn staged_one(h: Health, p: SpeciesParams, draw: u64) -> Health {
    if h.newborn {
        Health { newborn: false, ..h }
    } else {
        roamed(h, p, draw)
    }
}

/// The list after the staging of migrations, those who leave still in it.
pub open spec fn staged(list: Seq<Health>, p: SpeciesParams, draws: Seq<u64>) -> Seq<Health> {
    Seq::new(list.len(), |i: int| staged_one(list[i], p, draws[i]))
}

/// The list without the mark of the year of birth, all else as it was.
pub open spec fn weaned(list: Seq<Health>) -> Seq<Health> {
    list.map_values(|h: Health| Health { newborn: false, ..h })
}

/// Ends the year of birth of every newborn in the list.
pub fn wean_all<A: AnimalTraits + Copy>(list: &mut Vec<A>)
    ensures
        records(final(list)@) == weaned(records(old(list)@)),
        final(list)@.len() == old(list)@.len(),
        healthy(records(old(list)@), A::species()) ==> healthy(records(final(list)@), A::species()),
        unmoved(records(old(list)@)) ==> settled(records(final(list)@)),
{
    let ghost before = list@;
    let n: usize = list.len();
    let mut i: usize = 0;
    while i < n
        invariant
            i <= n,
            n == before.len(),
            list@.len() == n,
            forall|j: int|
                0 <= j < i ==> (#[trigger] list@[j]).record() == (Health {
                    newborn: false,
                    ..before[j].record()
                }),
            forall|j: int| i <= j < n ==> (#[trigger] list@[j]) == before[j],
        decreases n - i,
    {
        let mut h: Health = list[i].health();
        h.newborn = false;
        list.set(i, A::from_health(h));
        i = i + 1;
    }
    assert(records(list@) =~= weaned(records(before)));
    assert forall|j: int| 0 <= j < n implies (healthy(records(before), A::species()) ==> (
    #[trigger] records(list@)[j]).is_alive && consistent(records(list@)[j], A::species())) && (
    unmoved(records(before)) ==> !records(list@)[j].has_moved && !records(list@)[j].newborn) by {
        assert(records(list@)[j] == Health { newborn: false, ..records(before)[j] });
    }
}

/// Stages the migrations of a list, given one draw for each member.
pub fn stage_all<A: AnimalTraits + Copy>(list: &mut Vec<A>, draws: &Vec<u64>)
    requires
        all_consistent(records(old(list)@), A::species()),
        old(list)@.len() <= draws@.len(),
    ensures
        records(final(list)@) == staged(records(old(list)@), A::species(), draws@),
        all_consistent(records(final(list)@), A::species()),
        all_alive(records(old(list)@)) ==> all_alive(records(final(list)@)),
        final(list)@.len() == old(list)@.len(),
        forall|i: int| 0 <= i < final(list)@.len() ==> !(#[trigger] records(final(list)@)[i]).newborn,
{
    let ghost before = records(list@);
    let n: usize = list.len();
    let mut i: usize = 0;
    while i < n
        invariant
            i <= n,
            n == before.len(),
            n <= draws@.len(),
            list@.len() == n,
            all_consistent(before, A::species()),
            forall|j: int|
                0 <= j < i ==> (#[trigger] list@[j]).record() == staged_one(
                    before[j],
                    A::species(),
                    draws@[j],
                ),
            forall|j: int| i <= j < n ==> (#[trigger] list@[j]).record() == before[j],
        decreases n - i,
    {
        let mut a: A = list[i];
        let mut h: Health = a.health();
        if h.newborn {
            h.newborn = false;
            list.set(i, A::from_health(h));
        } else {
            a.migrate(draws[i]);
            list.set(i, a);
        }
        i = i + 1;
    }
    assert(records(list@) =~= staged(before, A::species(), draws@));
    assert forall|j: int| 0 <= j < records(list@).len() implies consistent(
        #[trigger] records(list@)[j],
        A::species(),
    ) && (all_alive(before) ==> records(list@)[j].is_alive) && !records(list@)[j].newborn by {
        lemma_fitness_bounds(A::species(), before[j].age, before[j].weight);
        if all_alive(before) {
            assert(before[j].is_alive);
        }
    }
}

/// A record as it arrives in a cell: with no mark of a move or of a birth
/// on it, and with no cached fitness.
pub open spec fn arrived(h: Health) -> Health {
    Health { has_moved: false, newborn: false, fitness: 0, fitness_valid: false, ..h }
}

/// The list as it arrives in a cell.
pub open spec fn arrivals(list: Seq<Health>) -> Seq<Health> {
    list.map_values(|h: Health| arrived(h))
}

/// The members of the list that are marked as leaving, in their order.
pub open spec fn movers(list: Seq<Health>) -> Seq<Health> {
    list.filter(|h: Health| h.has_moved)
}

/// The members of the list that are not marked as leaving, in their order.
pub open spec fn stayers(list: Seq<Health>) -> Seq<Health> {
    list.filter(|h: Health| !h.has_moved)
}

/// The destinations of those that are marked as leaving among the first `k`
/// members, where member `i` would go to `picks[i]`.
pub open spec fn routes(list: Seq<Health>, picks: Seq<Coord>, k: int) -> Seq<Coord>
    decreases k,
{
    if k <= 0 {
        Seq::empty()
    } else if list[k - 1].has_moved {
        routes(list, picks, k - 1).push(picks[k - 1])
    } else {
        routes(list, picks, k - 1)
    }
}

/// Everyone in the list either leaves or stays.
pub proof fn lemma_movers_and_stayers(list: Seq<Health>)
    ensures
        movers(list).len() + stayers(list).len() == list.len(),
    decreases list.len(),
{
    reveal(Seq::filter);
    if list.len() > 0 {
        lemma_movers_and_stayers(list.drop_last());
    }
}

/// There is one destination for each member that leaves, and each is one of
/// the picks.
pub proof fn lemma_routes(list: Seq<Health>, picks: Seq<Coord>, k: int)
    requires
        0 <= k <= list.len(),
        k <= picks.len(),
    ensures
        routes(list, picks, k).len() == movers(list.take(k)).len(),
        forall|i: int|
            0 <= i < routes(list, picks, k).len() ==> picks.contains(
                #[trigger] routes(list, picks, k)[i],
            ),
    decreases k,
{
    reveal(Seq::filter);
    if k > 0 {
        lemma_routes(list, picks, k - 1);
        assert(list.take(k).drop_last() =~= list.take(k - 1));
        assert(picks[k - 1] == picks[k - 1]);
    }
}

/// Copies out those that are marked as leaving, each with the mark taken
/// off and with its destination; member `i` goes to `picks[i]`.
pub fn collect_movers<A: AnimalTraits + Copy>(list: &Vec<A>, picks: &Vec<Coord>) -> (out: (
    Vec<Coord>,
    Vec<A>,
))
    requires
        list@.len() <= picks@.len(),
    ensures
        records(out.1@) == arrivals(movers(records(list@))),
        out.0@ == routes(records(list@), picks@, list@.len() as int),
        out.0@.len() == out.1@.len(),
{
    let ghost all = records(list@);
    let n: usize = list.len();
    let mut targets: Vec<Coord> = Vec::new();
    let mut gone: Vec<A> = Vec::new();
    let mut i: usize = 0;
    while i < n
        invariant
            i <= n,
            n == list@.len(),
            n <= picks@.len(),
            all == records(list@),
            records(gone@) == arrivals(movers(all.take(i as int))),
            targets@ == routes(all, picks@, i as int),
            targets@.len() == gone@.len(),
        decreases n - i,
    {
        let mut h: Health = list[i].health();
        proof {
            assert(all.take(i as int + 1) =~= all.take(i as int).push(h));
            all.take(i as int).lemma_filter_push(h, |h: Health| h.has_moved);
        }
        if h.has_moved {
            h.has_moved = false;
            h.newborn = false;
            h.fitness = 0;
            h.fitness_valid = false;
            let ghost earlier = records(gone@);
            gone.push(A::from_health(h));
            targets.push(picks[i]);
            assert(records(gone@) =~= earlier.push(h));
            assert(arrivals(movers(all.take(i as int + 1))) =~= arrivals(
                movers(all.take(i as int)),
            ).push(h));
        }
        i = i + 1;
    }
    assert(all.take(n as int) =~= all);
    (targets, gone)
}

/// Removes those that are marked as leaving.
pub fn drop_movers<A: AnimalTraits + Copy>(list: &mut Vec<A>)
    ensures
        records(final(list)@) == stayers(records(old(list)@)),
        final(list)@.len() <= old(list)@.len(),
{
    let ghost all = records(list@);
    let n: usize = list.len();
    let mut kept: Vec<A> = Vec::new();
    let mut i: usize = 0;
    while i < n
        invariant
            i <= n,
            n == list@.len(),
            all == records(list@),
            records(kept@) == stayers(all.take(i as int)),
            kept@.len() <= i,
        decreases n - i,
    {
        let a: A = list[i];
        let h: Health = a.health();
        proof {
            assert(all.take(i as int + 1) =~= all.take(i as int).push(h));
            all.take(i as int).lemma_filter_push(h, |h: Health| !h.has_moved);
        }
        if !h.has_moved {
            let ghost earlier = records(kept@);
            kept.push(a);
            assert(records(kept@) =~= earlier.push(h));
        }
        i = i + 1;
    }
    assert(all.take(n as int) =~= all);
    *list = kept;
}

/// Adds the living among the newcomers to the list, each as it arrives.
pub fn take_in<A: AnimalTraits + Copy>(list: &mut Vec<A>, newcomers: &Vec<A>)
    ensures
        records(final(list)@) == records(old(list)@) + arrivals(living(records(newcomers@))),
        final(list)@.len() <= old(list)@.len() + newcomers@.len(),
        all_alive(records(newcomers@)) ==> final(list)@.len() == old(list)@.len() + newcomers@.len(),
        healthy(records(old(list)@), A::species()) ==> healthy(records(final(list)@), A::species()),
        settled(records(old(list)@)) ==> settled(records(final(list)@)),
{
    let ghost before = records(list@);
    let ghost coming = records(newcomers@);
    let n: usize = newcomers.len();
    let mut i: usize = 0;
    while i < n
        invariant
            i <= n,
            n == newcomers@.len(),
            coming == records(newcomers@),
            records(list@) == before + arrivals(living(coming.take(i as int))),
            list@.len() <= before.len() + i,
            all_alive(coming) ==> list@.len() == before.len() + i,
            healthy(before, A::species()) ==> healthy(records(list@), A::species()),
            settled(before) ==> settled(records(list@)),
        decreases n - i,
    {
        let mut h: Health = newcomers[i].health();
        proof {
            assert(coming.take(i as int + 1) =~= coming.take(i as int).push(h));
            coming.take(i as int).lemma_filter_push(h, |h: Health| h.is_alive);
        }
        if h.is_alive {
            h.has_moved = false;
            h.newborn = false;
            h.fitness = 0;
            h.fitness_valid = false;
            let ghost earlier = records(list@);
            list.push(A::from_health(h));
            proof {
                assert(records(list@) =~= earlier.push(h));
                assert(arrivals(living(coming.take(i as int + 1))) =~= arrivals(
                    living(coming.take(i as int)),
                ).push(h));
                assert(before + arrivals(living(coming.take(i as int + 1))) =~= (before + arrivals(
                    living(coming.take(i as int)),
                )).push(h));
                assert forall|j: int| 0 <= j < records(list@).len() implies (healthy(
                    before,
                    A::species(),
                ) ==> (#[trigger] records(list@)[j]).is_alive && consistent(
                    records(list@)[j],
                    A::species(),
                )) && (settled(before) ==> !records(list@)[j].has_moved && !records(
                    list@,
                )[j].newborn) by {
                    if j < earlier.len() {
                        assert(records(list@)[j] == earlier[j]);
                    }
                }
            }
        } else {
            assert(!coming[i as int].is_alive);
        }
        i = i + 1;
    }
    assert(coming.take(n as int) =~= coming);
}

/// Everyone in the list is alive.
pub open spec fn all_alive(list: Seq<Health>) -> bool {
    forall|i: int| 0 <= i < list.len() ==> (#[trigger] list[i]).is_alive
}

/// A list of the living whose cached fitnesses are right.
pub open spec fn healthy(list: Seq<Health>, p: SpeciesParams) -> bool {
    all_alive(list) && all_consistent(list, p)
}

/// No one in the list is marked as leaving or as newborn.
pub open spec fn settled(list: Seq<Health>) -> bool {
    forall|i: int| 0 <= i < list.len() ==> !(#[trigger] list[i]).has_moved && !list[i].newborn
}

/// What holds of every member of a list holds of every member of a
/// selection from it.
pub proof fn lemma_filter_keeps(
    list: Seq<Health>,
    pred: spec_fn(Health) -> bool,
    prop: spec_fn(Health) -> bool,
)
    requires
        forall|i: int| 0 <= i < list.len() ==> prop(#[trigger] list[i]),
    ensures
        forall|i: int| 0 <= i < list.filter(pred).len() ==> prop(#[trigger] list.filter(pred)[i]),
        list.filter(pred).len() <= list.len(),
{
    list.lemma_filter_len(pred);
    assert forall|i: int| 0 <= i < list.filter(pred).len() implies prop(
        #[trigger] list.filter(pred)[i],
    ) by {
        let x = list.filter(pred)[i];
        assert(list.filter(pred).contains(x));
        list.lemma_filter_contains_rev(pred, x);
        let j = choose|j: int| 0 <= j < list.len() && list[j] == x;
        assert(prop(list[j]));
    }
}

/// A selection that leaves no one out is the list itself.
pub proof fn lemma_filter_all(list: Seq<Health>, pred: spec_fn(Health) -> bool)
    requires
        forall|i: int| 0 <= i < list.len() ==> pred(#[trigger] list[i]),
    ensures
        list.filter(pred) == list,
    decreases list.len(),
{
    reveal(Seq::filter);
    if list.len() > 0 {
        lemma_filter_all(list.drop_last(), pred);
        assert(list.drop_last().push(list.last()) =~= list);
    }
}

/// The living of a list and those of them that stay are healthy if the list
/// is.
pub proof fn lemma_selection_healthy(list: Seq<Health>, p: SpeciesParams)
    requires
        all_consistent(list, p),
    ensures
        healthy(living(list), p),
        all_alive(list) ==> healthy(stayers(list), p) && healthy(movers(list), p),
        all_consistent(stayers(list), p),
        forall|i: int| 0 <= i < stayers(list).len() ==> !(#[trigger] stayers(list)[i]).has_moved,
{
    lemma_filter_keeps(list, |h: Health| h.is_alive, |h: Health| consistent(h, p));
    lemma_filter_keeps(list, |h: Health| !h.has_moved, |h: Health| consistent(h, p));
    lemma_filter_keeps(list, |h: Health| h.has_moved, |h: Health| consistent(h, p));
    assert forall|i: int| 0 <= i < living(list).len() implies (#[trigger] living(list)[i]).is_alive by {
        list.lemma_filter_pred(|h: Health| h.is_alive, i);
    }
    assert forall|i: int| 0 <= i < stayers(list).len() implies !(#[trigger] stayers(
        list,
    )[i]).has_moved by {
        list.lemma_filter_pred(|h: Health| !h.has_moved, i);
    }
    if all_alive(list) {
        lemma_filter_keeps(list, |h: Health| !h.has_moved, |h: Health| h.is_alive);
        lemma_filter_keeps(list, |h: Health| h.has_moved, |h: Health| h.is_alive);
    }
}

/// Whether `x` must stand before `y`: by lesser fitness where the order is
/// rising, by greater fitness where it is falling. The fitness is the one
/// that the record holds.
pub open spec fn precedes(x: Health, y: Health, rising: bool) -> bool {
    if rising {
        x.fitness < y.fitness
    } else {
        x.fitness > y.fitness
    }
}

/// The ordered list `sorted` with `x` put in: behind everyone that it need
/// not stand before.
pub open spec fn slotted(sorted: Seq<Health>, x: Health, rising: bool) -> Seq<Health>
    decreases sorted.len(),
{
    if sorted.len() == 0 {
        seq![x]
    } else if precedes(x, sorted.last(), rising) {
        slotted(sorted.drop_last(), x, rising).push(sorted.last())
    } else {
        sorted.push(x)
    }
}

/// The list in order of fitness; members of equal fitness keep their order.
pub open spec fn ranked(list: Seq<Health>, rising: bool) -> Seq<Health>
    decreases list.len(),
{
    if list.len() == 0 {
        list
    } else {
        slotted(ranked(list.drop_last(), rising), list.last(), rising)
    }
}

/// No member of the list stands behind one that it must stand before.
pub open spec fn in_order(list: Seq<Health>, rising: bool) -> bool {
    forall|i: int, j: int| 0 <= i < j < list.len() ==> !precedes(list[j], list[i], rising)
}

/// Putting a member into an ordered list keeps the order, adds that member
/// and no other, and keeps what holds of all.
pub proof fn lemma_slotted(sorted: Seq<Health>, x: Health, rising: bool)
    ensures
        slotted(sorted, x, rising).len() == sorted.len() + 1,
        slotted(sorted, x, rising).to_multiset() == sorted.to_multiset().insert(x),
        in_order(sorted, rising) ==> in_order(slotted(sorted, x, rising), rising),
        forall|i: int|
            0 <= i < slotted(sorted, x, rising).len() ==> (#[trigger] slotted(sorted, x, rising)[i]) == x
                || sorted.contains(slotted(sorted, x, rising)[i]),
    decreases sorted.len(),
{
    broadcast use vstd::seq_lib::group_to_multiset_ensures;

    let out = slotted(sorted, x, rising);
    if sorted.len() == 0 {
        assert(out =~= Seq::<Health>::empty().push(x));
        assert(sorted =~= Seq::<Health>::empty());
    } else if precedes(x, sorted.last(), rising) {
        let front = sorted.drop_last();
        let inner = slotted(front, x, rising);
        lemma_slotted(front, x, rising);
        assert(sorted =~= front.push(sorted.last()));
        assert(out.to_multiset() =~= sorted.to_multiset().insert(x));
        assert forall|i: int| 0 <= i < out.len() implies (#[trigger] out[i]) == x || sorted.contains(
            out[i],
        ) by {
            if i < inner.len() {
                if inner[i] != x {
                    let k = choose|k: int| 0 <= k < front.len() && front[k] == inner[i];
                    assert(sorted[k] == out[i]);
                }
            } else {
                assert(sorted[sorted.len() - 1] == out[i]);
            }
        }
        if in_order(sorted, rising) {
            assert forall|i: int, j: int| 0 <= i < j < front.len() implies !precedes(
                front[j],
                front[i],
                rising,
            ) by {
                assert(front[i] == sorted[i] && front[j] == sorted[j]);
            }
            assert forall|i: int, j: int| 0 <= i < j < out.len() implies !precedes(
                out[j],
                out[i],
                rising,
            ) by {
                if j < inner.len() {
                    assert(out[i] == inner[i] && out[j] == inner[j]);
                } else {
                    assert(out[i] == inner[i]);
                    if inner[i] != x {
                        let k = choose|k: int| 0 <= k < front.len() && front[k] == inner[i];
                        assert(sorted[k] == inner[i]);
                        assert(!precedes(sorted[sorted.len() - 1], sorted[k], rising));
                    }
                }
            }
        }
    } else {
        assert(forall|i: int| 0 <= i < sorted.len() ==> out[i] == sorted[i]);
        if in_order(sorted, rising) {
            assert forall|i: int, j: int| 0 <= i < j < out.len() implies !precedes(
                out[j],
                out[i],
                rising,
            ) by {
                if j < sorted.len() {
                    assert(out[i] == sorted[i] && out[j] == sorted[j]);
                } else if i < sorted.len() - 1 {
                    assert(!precedes(sorted[sorted.len() - 1], sorted[i], rising));
                }
            }
        }
    }
}

/// The ordered list is in order, holds the members of the list and no
/// others, and keeps what holds of all.
pub proof fn lemma_ranked(list: Seq<Health>, rising: bool)
    ensures
        ranked(list, rising).len() == list.len(),
        ranked(list, rising).to_multiset() == list.to_multiset(),
        in_order(ranked(list, rising), rising),
        forall|i: int|
            0 <= i < list.len() ==> list.contains(#[trigger] ranked(list, rising)[i]),
    decreases list.len(),
{
    broadcast use vstd::seq_lib::group_to_multiset_ensures;

    if list.len() > 0 {
        let front = list.drop_last();
        lemma_ranked(front, rising);
        lemma_slotted(ranked(front, rising), list.last(), rising);
        assert(list =~= front.push(list.last()));
        let out = ranked(list, rising);
        assert forall|i: int| 0 <= i < list.len() implies list.contains(#[trigger] out[i]) by {
            if out[i] == list.last() {
                assert(list[list.len() - 1] == out[i]);
            } else {
                let k = choose|k: int|
                    0 <= k < ranked(front, rising).len() && ranked(front, rising)[k] == out[i];
                let m = choose|m: int| 0 <= m < front.len() && front[m] == ranked(front, rising)[k];
                assert(list[m] == out[i]);
            }
        }
    }
}

/// A healthy, settled list is still so when put in order.
pub proof fn lemma_ranked_keeps(list: Seq<Health>, rising: bool, p: SpeciesParams)
    ensures
        all_consistent(list, p) ==> all_consistent(ranked(list, rising), p),
        all_alive(list) ==> all_alive(ranked(list, rising)),
        settled(list) ==> settled(ranked(list, rising)),
        unmoved(list) ==> unmoved(ranked(list, rising)),
{
    lemma_ranked(list, rising);
    let out = ranked(list, rising);
    assert forall|i: int| 0 <= i < out.len() implies (all_consistent(list, p) ==> consistent(
        #[trigger] out[i],
        p,
    )) && (all_alive(list) ==> out[i].is_alive) && (settled(list) ==> !out[i].has_moved
        && !out[i].newborn) && (unmoved(list) ==> !out[i].has_moved) by {
        assert(list.contains(out[i]));
        let m = choose|m: int| 0 <= m < list.len() && list[m] == out[i];
    }
}

/// Whether a fitness of `x` must stand before one of `y`.
fn ahead(x: u64, y: u64, rising: bool) -> (r: bool)
    ensures
        r == if rising {
            x < y
        } else {
            x > y
        },
{
    if rising {
        x < y
    } else {
        x > y
    }
}

/// Orders the list by the fitness that each record holds, rising or
/// falling; members of equal fitness keep their order.
pub fn rank<A: AnimalTraits + Copy>(list: &mut Vec<A>, rising: bool)
    ensures
        records(final(list)@) == ranked(records(old(list)@), rising),
        final(list)@.len() == old(list)@.len(),
{
    let ghost before = records(list@);
    let n: usize = list.len();
    let mut out: Vec<A> = Vec::new();
    let mut i: usize = 0;
    while i < n
        invariant
            i <= n,
            n == list@.len(),
            before == records(list@),
            records(out@) == ranked(before.take(i as int), rising),
            out@.len() == i,
        decreases n - i,
    {
        let a: A = list[i];
        let key: u64 = a.health().fitness;
        let ghost row = records(out@);
        let mut pos: usize = out.len();
        proof {
            assert(row.take(pos as int) =~= row);
            assert(slotted(row, a.record(), rising) + row.skip(pos as int) =~= slotted(
                row,
                a.record(),
                rising,
            ));
        }
        while pos > 0 && ahead(key, out[pos - 1].health().fitness, rising)
            invariant
                pos <= out@.len(),
                row == records(out@),
                key == a.record().fitness,
                slotted(row, a.record(), rising) == slotted(row.take(pos as int), a.record(), rising)
                    + row.skip(pos as int),
            decreases pos,
        {
            proof {
                let head = row.take(pos as int);
                assert(head.last() == row[pos - 1]);
                assert(head.drop_last() =~= row.take(pos - 1));
                assert(slotted(head, a.record(), rising) == slotted(
                    row.take(pos - 1),
                    a.record(),
                    rising,
                ).push(row[pos - 1]));
                assert(slotted(row.take(pos - 1), a.record(), rising).push(row[pos - 1]) + row.skip(
                    pos as int,
                ) =~= slotted(row.take(pos - 1), a.record(), rising) + row.skip(pos - 1));
            }
            pos = pos - 1;
        }
        proof {
            let head = row.take(pos as int);
            if pos > 0 {
                assert(head.last() == row[pos - 1]);
            }
            assert(slotted(head, a.record(), rising) =~= head.push(a.record()));
            assert(before.take(i as int + 1).drop_last() =~= before.take(i as int));
            assert(before.take(i as int + 1).last() == a.record());
        }
        out.insert(pos, a);
        proof {
            assert(records(out@) =~= row.take(pos as int).push(a.record()) + row.skip(pos as int));
        }
        i = i + 1;
    }
    assert(before.take(n as int) =~= before);
    *list = out;
}

/// No one in the list is marked as leaving.
pub open spec fn unmoved(list: Seq<Health>) -> bool {
    forall|i: int| 0 <= i < list.len() ==> !(#[trigger] list[i]).has_moved
}

/// Once those that leave are gone from a staged list, no one in it is
/// marked.
pub proof fn lemma_stayers_settled(list: Seq<Health>)
    requires
        forall|i: int| 0 <= i < list.len() ==> !(#[trigger] list[i]).newborn,
    ensures
        settled(stayers(list)),
{
    lemma_filter_keeps(list, |h: Health| !h.has_moved, |h: Health| !h.newborn);
    assert forall|i: int| 0 <= i < stayers(list).len() implies !(#[trigger] stayers(
        list,
    )[i]).has_moved && !stayers(list)[i].newborn by {
        list.lemma_filter_pred(|h: Health| !h.has_moved, i);
    }
}

/// The sum of the ages of the first `k` members of a list.
pub open spec fn age_sum(list: Seq<Health>, k: int) -> int
    decreases k,
{
    if k <= 0 {
        0
    } else {
        age_sum(list, k - 1) + list[k - 1].age
    }
}

/// The sum of the weights of the first `k` members of a list.
pub open spec fn weight_sum(list: Seq<Health>, k: int) -> int
    decreases k,
{
    if k <= 0 {
        0
    } else {
        weight_sum(list, k - 1) + list[k - 1].weight
    }
}

/// The mean age of a list in millionths of a year, rounded down; zero for
/// an empty list.
pub open spec fn mean_age(list: Seq<Health>) -> int {
    if list.len() == 0 {
        0
    } else {
        (age_sum(list, list.len() as int) * UNIT) / (list.len() as int)
    }
}

/// The mean weight of a list in millionths, rounded down; zero for an empty
/// list.
pub open spec fn mean_weight(list: Seq<Health>) -> int {
    if list.len() == 0 {
        0
    } else {
        weight_sum(list, list.len() as int) / (list.len() as int)
    }
}

/// Computes the mean age of a list.
pub fn average_age<A: AnimalTraits + Copy>(list: &Vec<A>) -> (r: u64)
    requires
        list@.len() <= u32::MAX,
    ensures
        r == mean_age(records(list@)),
{
    let ghost all = records(list@);
    let n: usize = list.len();
    if n == 0 {
        return 0;
    }
    let mut sum: u64 = 0;
    let mut i: usize = 0;
    while i < n
        invariant
            i <= n,
            n == list@.len(),
            n <= u32::MAX,
            all == records(list@),
            sum == age_sum(all, i as int),
            sum <= i * 0xFFFF_FFFF,
        decreases n - i,
    {
        let h: Health = list[i].health();
        assert(i * 0xFFFF_FFFF + 0xFFFF_FFFF <= 0xFFFF_FFFF * 0xFFFF_FFFF) by (nonlinear_arith)
            requires
                i < n,
                n <= 0xFFFF_FFFF,
        ;
        sum = sum + h.age as u64;
        i = i + 1;
    }
    assert(sum * UNIT <= 0xFFFF_FFFF * 0xFFFF_FFFF * 1_000_000) by (nonlinear_arith)
        requires
            sum <= n * 0xFFFF_FFFF,
            n <= 0xFFFF_FFFF,
            UNIT == 1_000_000,
    ;
    let wide: u128 = (sum as u128) * (UNIT as u128) / (n as u128);
    assert(wide <= 0xFFFF_FFFF * 1_000_000) by (nonlinear_arith)
        requires
            wide == (sum * UNIT) / (n as int),
            sum <= n * 0xFFFF_FFFF,
            0 < n,
            UNIT == 1_000_000,
    ;
    wide as u64
}

/// Computes the mean weight of a list.
pub fn average_weight<A: AnimalTraits + Copy>(list: &Vec<A>) -> (r: u64)
    requires
        list@.len() <= u32::MAX,
    ensures
        r == mean_weight(records(list@)),
{
    let ghost all = records(list@);
    let n: usize = list.len();
    if n == 0 {
        return 0;
    }
    let mut sum: u128 = 0;
    let mut i: usize = 0;
    while i < n
        invariant
            i <= n,
            n == list@.len(),
            n <= u32::MAX,
            all == records(list@),
            sum == weight_sum(all, i as int),
            sum <= i * 0xFFFF_FFFF_FFFF_FFFF,
        decreases n - i,
    {
        let h: Health = list[i].health();
        assert(i * 0xFFFF_FFFF_FFFF_FFFF + 0xFFFF_FFFF_FFFF_FFFF <= 0xFFFF_FFFF * 0xFFFF_FFFF_FFFF_FFFF)
            by (nonlinear_arith)
            requires
                i < n,
                n <= 0xFFFF_FFFF,
        ;
        sum = sum + h.weight as u128;
        i = i + 1;
    }
    let wide: u128 = sum / (n as u128);
    assert(wide <= 0xFFFF_FFFF_FFFF_FFFF) by (nonlinear_arith)
        requires
            wide == (sum as int) / (n as int),
            sum <= n * 0xFFFF_FFFF_FFFF_FFFF,
            0 < n,
    ;
    wide as u64
}

} // verus!
