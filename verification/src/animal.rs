//! One individual: its record, the constants of its species, and the rules
//! by which it ages, starves, dies, wanders, breeds, grazes and hunts.
//!
//! Every rule that depends on chance takes the outcome of the draw as an
//! argument, so that each is a function of what it is given.

use vstd::prelude::*;
use crate::logistic::lemma_logistic_bounds;
use crate::logistic::lemma_logistic_monotone;
use crate::logistic::logistic;
use crate::units::UNIT;
use crate::units::add_capped;
use crate::units::capped;
use crate::units::lemma_scaled_fraction;
use crate::units::lemma_scaled_monotone;
use crate::units::lowered;
use crate::units::mul_unit;
use crate::units::raised;
use crate::units::scaled;
use crate::units::sub_floored;
use crate::util::q;

verus! {

/// The constants of one species, in millionths.
#[derive(Debug, Clone, Copy)]
pub struct SpeciesParams {
    /// Mean weight at birth.
    pub w_birth: u64,
    /// Standard deviation of the weight at birth.
    pub sigma_birth: u64,
    /// Share of what is eaten that turns into weight.
    pub beta: u64,
    /// Share of the weight that is lost each year.
    pub eta: u64,
    /// Age at which the age term of the fitness is one half.
    pub a_half: u64,
    /// Steepness of the age term.
    pub phi_age: u64,
    /// Weight at which the weight term of the fitness is one half.
    pub w_half: u64,
    /// Steepness of the weight term.
    pub phi_weight: u64,
    /// Propensity to migrate.
    pub mu: u64,
    /// Propensity to give birth.
    pub gamma: u64,
    /// Multiple of the birth weight that a parent must weigh.
    pub zeta: u64,
    /// Multiple of the newborn's weight that the parent loses.
    pub xi: u64,
    /// Propensity to die.
    pub omega: u64,
    /// Appetite: the most that is eaten in one year.
    pub f: u64,
    /// Carnivores only: the fitness lead from which a kill is certain.
    pub delta_phi_max: Option<u64>,
}

/// The constants of the herbivores.
pub open spec fn herbivore_constants() -> SpeciesParams {
    SpeciesParams {
        w_birth: 8_000_000,
        sigma_birth: 1_500_000,
        beta: 900_000,
        eta: 50_000,
        a_half: 40_000_000,
        phi_age: 600_000,
        w_half: 10_000_000,
        phi_weight: 100_000,
        mu: 250_000,
        gamma: 200_000,
        zeta: 3_200_000,
        xi: 1_800_000,
        omega: 400_000,
        f: 10_000_000,
        delta_phi_max: None,
    }
}

/// The constants of the carnivores.
pub open spec fn carnivore_constants() -> SpeciesParams {
    SpeciesParams {
        w_birth: 6_000_000,
        sigma_birth: 1_000_000,
        beta: 750_000,
        eta: 125_000,
        a_half: 70_000_000,
        phi_age: 500_000,
        w_half: 4_000_000,
        phi_weight: 400_000,
        mu: 400_000,
        gamma: 800_000,
        zeta: 3_500_000,
        xi: 1_100_000,
        omega: 300_000,
        f: 6_000_000,
        delta_phi_max: Some(9_000_000u64),
    }
}

/// The constants of the herbivores.
pub fn herbivore_params() -> (p: SpeciesParams)
    ensures
        p == herbivore_constants(),
{
    SpeciesParams {
        w_birth: 8_000_000,
        sigma_birth: 1_500_000,
        beta: 900_000,
        eta: 50_000,
        a_half: 40_000_000,
        phi_age: 600_000,
        w_half: 10_000_000,
        phi_weight: 100_000,
        mu: 250_000,
        gamma: 200_000,
        zeta: 3_200_000,
        xi: 1_800_000,
        omega: 400_000,
        f: 10_000_000,
        delta_phi_max: None,
    }
}

/// The constants of the carnivores.
pub fn carnivore_params() -> (p: SpeciesParams)
    ensures
        p == carnivore_constants(),
{
    SpeciesParams {
        w_birth: 6_000_000,
        sigma_birth: 1_000_000,
        beta: 750_000,
        eta: 125_000,
        a_half: 70_000_000,
        phi_age: 500_000,
        w_half: 4_000_000,
        phi_weight: 400_000,
        mu: 400_000,
        gamma: 800_000,
        zeta: 3_500_000,
        xi: 1_100_000,
        omega: 300_000,
        f: 6_000_000,
        delta_phi_max: Some(9_000_000),
    }
}

/// The record of one individual.
#[derive(Debug, Clone, Copy)]
pub struct Health {
    pub is_alive: bool,
    /// Weight in millionths.
    pub weight: u64,
    /// Age in years.
    pub age: u32,
    /// Set when the individual has decided to leave its cell this year.
    pub has_moved: bool,
    /// The fitness as last computed, in millionths; zero while it is not valid.
    pub fitness: u64,
    /// Whether `fitness` is the fitness of the present age and weight.
    pub fitness_valid: bool,
    /// Set in the year of birth: a newborn neither ages, loses weight nor
    /// migrates before that year is over.
    pub newborn: bool,
}

/// What comes of an attempt to give birth.
#[derive(Debug, Clone, Copy)]
pub struct BirthResult {
    pub given_birth: bool,
    /// The weight of the newborn, where there is one.
    pub birth_weight: Option<u64>,
}

/// The fitness of an individual of the given age and weight: the product of
/// a term that falls with age and one that rises with weight.
pub open spec fn fitness_of(p: SpeciesParams, age: u32, weight: u64) -> int {
    scaled(
        logistic(1, age as int * UNIT as int, p.a_half as int, p.phi_age as int),
        logistic(-1, weight as int, p.w_half as int, p.phi_weight as int),
    )
}

/// A fitness lies between zero and one, whatever the age, the weight and the
/// constants of the species.
pub proof fn lemma_fitness_bounds(p: SpeciesParams, age: u32, weight: u64)
    ensures
        0 <= fitness_of(p, age, weight) <= UNIT,
{
    let a = logistic(1, age as int * UNIT as int, p.a_half as int, p.phi_age as int);
    let w = logistic(-1, weight as int, p.w_half as int, p.phi_weight as int);
    assert(0 <= age as int * UNIT as int) by (nonlinear_arith)
        requires
            0 <= age,
            UNIT == 1_000_000,
    ;
    lemma_logistic_bounds(1, age as int * UNIT as int, p.a_half as int, p.phi_age as int);
    lemma_logistic_bounds(-1, weight as int, p.w_half as int, p.phi_weight as int);
    lemma_scaled_fraction(a, w);
}

/// The fitness never falls as the weight grows, whatever the age and the
/// constants of the species.
pub proof fn lemma_fitness_rises_with_weight(p: SpeciesParams, age: u32, w1: u64, w2: u64)
    requires
        w1 <= w2,
    ensures
        fitness_of(p, age, w1) <= fitness_of(p, age, w2),
{
    let a = logistic(1, age as int * UNIT as int, p.a_half as int, p.phi_age as int);
    assert(0 <= age as int * UNIT as int) by (nonlinear_arith)
        requires
            0 <= age,
            UNIT == 1_000_000,
    ;
    lemma_logistic_bounds(1, age as int * UNIT as int, p.a_half as int, p.phi_age as int);
    lemma_logistic_bounds(-1, w1 as int, p.w_half as int, p.phi_weight as int);
    lemma_logistic_monotone(-1, w1 as int, w2 as int, p.w_half as int, p.phi_weight as int);
    lemma_scaled_monotone(
        a,
        logistic(-1, w1 as int, p.w_half as int, p.phi_weight as int),
        logistic(-1, w2 as int, p.w_half as int, p.phi_weight as int),
    );
}

/// The fitness never rises as the age grows, whatever the weight and the
/// constants of the species.
pub proof fn lemma_fitness_falls_with_age(p: SpeciesParams, a1: u32, a2: u32, weight: u64)
    requires
        a1 <= a2,
    ensures
        fitness_of(p, a1, weight) >= fitness_of(p, a2, weight),
{
    let w = logistic(-1, weight as int, p.w_half as int, p.phi_weight as int);
    let x1 = a1 as int * UNIT as int;
    let x2 = a2 as int * UNIT as int;
    assert(0 <= x1 <= x2) by (nonlinear_arith)
        requires
            0 <= a1 <= a2,
            x1 == a1 as int * UNIT as int,
            x2 == a2 as int * UNIT as int,
            UNIT == 1_000_000,
    ;
    lemma_logistic_bounds(-1, weight as int, p.w_half as int, p.phi_weight as int);
    lemma_logistic_bounds(1, x2, p.a_half as int, p.phi_age as int);
    lemma_logistic_monotone(1, x1, x2, p.a_half as int, p.phi_age as int);
    let f1 = logistic(1, x1, p.a_half as int, p.phi_age as int);
    let f2 = logistic(1, x2, p.a_half as int, p.phi_age as int);
    lemma_scaled_monotone(w, f2, f1);
    assert(scaled(w, f1) == scaled(f1, w) && scaled(w, f2) == scaled(f2, w)) by (nonlinear_arith)
        requires
            UNIT == 1_000_000,
    ;
}

/// The record's cached fitness, where it claims one, is the fitness of its
/// age and weight.
pub open spec fn consistent(h: Health, p: SpeciesParams) -> bool {
    h.fitness_valid ==> h.fitness == fitness_of(p, h.age, h.weight)
}

/// The record with its cached fitness filled in.
pub open spec fn fresh(h: Health, p: SpeciesParams) -> Health {
    Health { fitness: fitness_of(p, h.age, h.weight) as u64, fitness_valid: true, ..h }
}

/// The record of a new individual.
pub open spec fn founded(p: SpeciesParams, weight: u64, age: u32) -> Health {
    Health {
        is_alive: true,
        weight,
        age,
        has_moved: false,
        fitness: fitness_of(p, age, weight) as u64,
        fitness_valid: true,
        newborn: false,
    }
}

/// The record one year older. The age stops at the largest number that the
/// record can hold.
pub open spec fn grown(h: Health) -> Health {
    Health {
        age: if h.age < u32::MAX { (h.age + 1) as u32 } else { h.age },
        fitness: 0,
        fitness_valid: false,
        ..h
    }
}

/// The record after the yearly loss of the share `eta` of the weight.
pub open spec fn slimmed(h: Health, p: SpeciesParams) -> Health {
    Health {
        weight: lowered(h.weight as int, capped(scaled(h.weight as int, p.eta as int))) as u64,
        fitness: 0,
        fitness_valid: false,
        ..h
    }
}

/// The probability `omega * (1 - fitness)` of dying in a year.
pub open spec fn death_chance(p: SpeciesParams, fitness: int) -> int {
    capped(scaled(p.omega as int, UNIT - fitness))
}

/// Whether the individual dies: always without weight, else when the draw
/// falls below the probability of death.
pub open spec fn dies(h: Health, p: SpeciesParams, draw: u64) -> bool {
    h.weight == 0 || draw < death_chance(p, fitness_of(p, h.age, h.weight))
}

/// The record after the yearly trial of death.
pub open spec fn judged(h: Health, p: SpeciesParams, draw: u64) -> Health {
    if h.weight == 0 {
        Health { is_alive: false, ..h }
    } else if dies(h, p, draw) {
        Health { is_alive: false, ..fresh(h, p) }
    } else {
        fresh(h, p)
    }
}

/// The probability `mu * fitness` of leaving the cell in a year.
pub open spec fn move_chance(p: SpeciesParams, fitness: int) -> int {
    capped(scaled(p.mu as int, fitness))
}

/// Whether the individual decides to leave its cell.
pub open spec fn wanders(h: Health, p: SpeciesParams, draw: u64) -> bool {
    draw < move_chance(p, fitness_of(p, h.age, h.weight))
}

/// The record after the decision whether to leave.
pub open spec fn roamed(h: Health, p: SpeciesParams, draw: u64) -> Health {
    if wanders(h, p, draw) {
        Health { has_moved: true, ..fresh(h, p) }
    } else {
        fresh(h, p)
    }
}

/// The weight `zeta * (w_birth + sigma_birth)` below which no birth is tried.
pub open spec fn birth_threshold(p: SpeciesParams) -> int {
    capped(scaled(p.zeta as int, raised(p.w_birth as int, p.sigma_birth as int)))
}

/// The probability `gamma * fitness * (n_same - 1)` of a birth; it may
/// exceed one.
pub open spec fn birth_chance(p: SpeciesParams, fitness: int, n_same: u32) -> int {
    capped(capped(scaled(p.gamma as int, fitness)) * lowered(n_same as int, 1))
}

/// Whether a birth is tried and the draw grants it.
pub open spec fn conceives(h: Health, p: SpeciesParams, n_same: u32, draw: u64) -> bool {
    let chance = birth_chance(p, fitness_of(p, h.age, h.weight), n_same);
    h.weight >= birth_threshold(p) && (chance >= UNIT || draw < chance)
}

/// Whether an offspring of the sampled weight is born: a birth must be
/// granted, and the offspring must weigh less than its parent.
pub open spec fn delivers(
    h: Health,
    p: SpeciesParams,
    n_same: u32,
    draw: u64,
    birth_weight: u64,
) -> bool {
    conceives(h, p, n_same, draw) && birth_weight < h.weight
}

/// The parent's record after the attempt: a birth costs `xi` times the
/// offspring's weight, anything else costs nothing.
pub open spec fn delivered(
    h: Health,
    p: SpeciesParams,
    n_same: u32,
    draw: u64,
    birth_weight: u64,
) -> Health {
    if delivers(h, p, n_same, draw, birth_weight) {
        Health {
            weight: lowered(h.weight as int, capped(scaled(p.xi as int, birth_weight as int))) as u64,
            fitness: 0,
            fitness_valid: false,
            ..h
        }
    } else {
        fresh(h, p)
    }
}

/// The outcome of the attempt.
pub open spec fn birth_outcome(
    h: Health,
    p: SpeciesParams,
    n_same: u32,
    draw: u64,
    birth_weight: u64,
) -> BirthResult {
    if delivers(h, p, n_same, draw, birth_weight) {
        BirthResult { given_birth: true, birth_weight: Some(birth_weight) }
    } else {
        BirthResult { given_birth: false, birth_weight: None }
    }
}

/// Below the threshold weight `zeta * (w_birth + sigma_birth)` no birth
/// takes place and the parent's weight stays, whatever the constants of
/// the species, the company, the draw and the sampled birth weight.
pub proof fn lemma_no_birth_below_threshold(
    h: Health,
    p: SpeciesParams,
    n_same: u32,
    draw: u64,
    birth_weight: u64,
)
    requires
        h.weight < birth_threshold(p),
    ensures
        !delivers(h, p, n_same, draw, birth_weight),
        !birth_outcome(h, p, n_same, draw, birth_weight).given_birth,
        birth_outcome(h, p, n_same, draw, birth_weight).birth_weight is None,
        delivered(h, p, n_same, draw, birth_weight).weight == h.weight,
{
}

/// An offspring that would weigh as much as its parent or more is not
/// born: there is no offspring, and the parent's weight stays.
pub proof fn lemma_heavy_offspring_not_born(
    h: Health,
    p: SpeciesParams,
    n_same: u32,
    draw: u64,
    birth_weight: u64,
)
    requires
        birth_weight >= h.weight,
    ensures
        !delivers(h, p, n_same, draw, birth_weight),
        !birth_outcome(h, p, n_same, draw, birth_weight).given_birth,
        birth_outcome(h, p, n_same, draw, birth_weight).birth_weight is None,
        delivered(h, p, n_same, draw, birth_weight).weight == h.weight,
{
}

/// Without weight the trial of death ends in death, whatever the draw.
pub proof fn lemma_no_weight_no_life(h: Health, p: SpeciesParams, draw: u64)
    requires
        h.weight == 0,
    ensures
        dies(h, p, draw),
        !judged(h, p, draw).is_alive,
{
}

/// With a fitness lead of `delta_phi_max` or more the catch succeeds,
/// whatever the draw; without a lead it fails, whatever the draw.
pub proof fn lemma_certain_catch(
    delta_phi_max: u64,
    predator_fitness: u64,
    prey_fitness: u64,
    draw: u64,
)
    ensures
        predator_fitness > prey_fitness && predator_fitness - prey_fitness >= delta_phi_max ==> catches(
            delta_phi_max,
            predator_fitness,
            prey_fitness,
            draw,
        ),
        predator_fitness <= prey_fitness ==> !catches(
            delta_phi_max,
            predator_fitness,
            prey_fitness,
            draw,
        ),
{
}

/// The record of a newborn of the given weight.
pub open spec fn newborn_of(p: SpeciesParams, weight: u64) -> Health {
    Health { newborn: true, ..founded(p, weight, 0) }
}

/// The weight `w_birth + sigma_birth * z` of a newborn for a deviate `z` in
/// millionths of a standard deviation, held at zero.
pub open spec fn birth_weight_of(p: SpeciesParams, deviate: i64) -> int {
    if deviate >= 0 {
        raised(p.w_birth as int, capped(scaled(p.sigma_birth as int, deviate as int)))
    } else {
        lowered(p.w_birth as int, capped(scaled(p.sigma_birth as int, -(deviate as int))))
    }
}

/// What an individual eats when `fodder` is on offer: its appetite, or all
/// there is.
pub open spec fn portion(p: SpeciesParams, fodder: u64) -> int {
    if p.f <= fodder {
        p.f as int
    } else {
        fodder as int
    }
}

/// The record after eating from `fodder`: the weight grows by `beta` times
/// what was eaten.
pub open spec fn fed(h: Health, p: SpeciesParams, fodder: u64) -> Health {
    Health {
        weight: raised(h.weight as int, capped(scaled(p.beta as int, portion(p, fodder)))) as u64,
        fitness: 0,
        fitness_valid: false,
        ..h
    }
}

/// The record of an individual that was killed.
pub open spec fn slain(h: Health) -> Health {
    Health { is_alive: false, ..h }
}

/// Whether a predator catches a prey: never without a fitness lead, always
/// with a lead of `delta_phi_max` or more, and in between when the draw
/// falls below the lead's share of `delta_phi_max`.
pub open spec fn catches(
    delta_phi_max: u64,
    predator_fitness: u64,
    prey_fitness: u64,
    draw: u64,
) -> bool {
    let lead = predator_fitness - prey_fitness;
    lead > 0 && (lead >= delta_phi_max || draw < (lead * UNIT) / (delta_phi_max as int))
}

/// No rule makes an individual younger.
pub proof fn lemma_age_never_falls(
    h: Health,
    p: SpeciesParams,
    n_same: u32,
    draw: u64,
    birth_weight: u64,
    fodder: u64,
)
    ensures
        grown(h).age >= h.age,
        slimmed(h, p).age == h.age,
        judged(h, p, draw).age == h.age,
        roamed(h, p, draw).age == h.age,
        delivered(h, p, n_same, draw, birth_weight).age == h.age,
        fed(h, p, fodder).age == h.age,
        slain(h).age == h.age,
        fresh(h, p).age == h.age,
{
}

/// Whatever rule changes the age or the weight drops the cached fitness,
/// and whatever rule fills it in fills in the fitness of the age and the
/// weight: a record whose cached fitness is right stays so.
pub proof fn lemma_cache_stays_right(
    h: Health,
    p: SpeciesParams,
    n_same: u32,
    draw: u64,
    birth_weight: u64,
    fodder: u64,
)
    requires
        consistent(h, p),
    ensures
        consistent(grown(h), p),
        consistent(slimmed(h, p), p),
        consistent(judged(h, p, draw), p),
        consistent(roamed(h, p, draw), p),
        consistent(delivered(h, p, n_same, draw, birth_weight), p),
        consistent(fed(h, p, fodder), p),
        consistent(slain(h), p),
        consistent(fresh(h, p), p),
        !grown(h).fitness_valid,
        !slimmed(h, p).fitness_valid,
        !fed(h, p, fodder).fitness_valid,
{
    lemma_fitness_bounds(p, h.age, h.weight);
}

/// Computes the fitness of the given age and weight.
pub fn fitness(p: &SpeciesParams, age: u32, weight: u64) -> (r: u64)
    ensures
        r == fitness_of(*p, age, weight),
        r <= UNIT,
{
    proof {
        lemma_fitness_bounds(*p, age, weight);
    }
    assert(age as int * UNIT as int <= u64::MAX) by (nonlinear_arith)
        requires
            age <= u32::MAX,
            UNIT == 1_000_000,
    ;
    let by_age: u64 = q(1, age as u64 * UNIT, p.a_half, p.phi_age);
    let by_weight: u64 = q(-1, weight, p.w_half, p.phi_weight);
    let r: u64 = mul_unit(by_age, by_weight);
    r
}

/// Decides whether a predator catches a prey, given the draw.
pub fn kill_succeeds(
    delta_phi_max: u64,
    predator_fitness: u64,
    prey_fitness: u64,
    draw: u64,
) -> (r: bool)
    ensures
        r == catches(delta_phi_max, predator_fitness, prey_fitness, draw),
        predator_fitness <= prey_fitness ==> !r,
        predator_fitness > prey_fitness && predator_fitness - prey_fitness >= delta_phi_max ==> r,
{
    if predator_fitness <= prey_fitness {
        false
    } else {
        let lead: u64 = predator_fitness - prey_fitness;
        if lead >= delta_phi_max {
            true
        } else {
            assert(0 <= (lead as int) * (UNIT as int) <= 0xFFFF_FFFF_FFFF_FFFF * 1_000_000)
                by (nonlinear_arith)
                requires
                    0 <= lead <= 0xFFFF_FFFF_FFFF_FFFF,
                    UNIT == 1_000_000,
            ;
            let odds: u128 = (lead as u128) * (UNIT as u128) / (delta_phi_max as u128);
            (draw as u128) < odds
        }
    }
}

impl Health {
    /// The record of a new individual of the given species.
    pub fn found(p: &SpeciesParams, weight: u64, age: u32) -> (h: Health)
        ensures
            h == founded(*p, weight, age),
            consistent(h, *p),
    {
        Health {
            is_alive: true,
            weight,
            age,
            has_moved: false,
            fitness: fitness(p, age, weight),
            fitness_valid: true,
            newborn: false,
        }
    }

    /// Returns the fitness, computing it where the cached one is not valid.
    pub fn refresh(&mut self, p: &SpeciesParams) -> (r: u64)
        requires
            consistent(*old(self), *p),
        ensures
            *final(self) == fresh(*old(self), *p),
            r == fitness_of(*p, old(self).age, old(self).weight),
            r <= UNIT,
    {
        proof {
            lemma_fitness_bounds(*p, self.age, self.weight);
        }
        if !self.fitness_valid {
            self.fitness = fitness(p, self.age, self.weight);
            self.fitness_valid = true;
        }
        self.fitness
    }

    /// Computes the fitness anew, whatever the cache holds.
    pub fn recompute(&mut self, p: &SpeciesParams)
        ensures
            *final(self) == fresh(*old(self), *p),
    {
        self.fitness = fitness(p, self.age, self.weight);
        self.fitness_valid = true;
    }

    /// One year passes.
    pub fn grow(&mut self)
        ensures
            *final(self) == grown(*old(self)),
    {
        if self.age < u32::MAX {
            self.age = self.age + 1;
        }
        self.fitness = 0;
        self.fitness_valid = false;
    }

    /// The yearly loss of weight.
    pub fn slim(&mut self, p: &SpeciesParams)
        ensures
            *final(self) == slimmed(*old(self), *p),
    {
        let loss: u64 = mul_unit(self.weight, p.eta);
        self.weight = sub_floored(self.weight, loss);
        self.fitness = 0;
        self.fitness_valid = false;
    }

    /// The yearly trial of death, given the draw.
    pub fn judge(&mut self, p: &SpeciesParams, draw: u64)
        requires
            consistent(*old(self), *p),
        ensures
            *final(self) == judged(*old(self), *p, draw),
            old(self).weight == 0 ==> !final(self).is_alive,
    {
        if self.weight == 0 {
            self.is_alive = false;
        } else {
            let phi: u64 = self.refresh(p);
            let chance: u64 = mul_unit(p.omega, UNIT - phi);
            if draw < chance {
                self.is_alive = false;
            }
        }
    }

    /// The decision whether to leave the cell, given the draw.
    pub fn roam(&mut self, p: &SpeciesParams, draw: u64) -> (moved: bool)
        requires
            consistent(*old(self), *p),
        ensures
            *final(self) == roamed(*old(self), *p, draw),
            moved == wanders(*old(self), *p, draw),
    {
        let phi: u64 = self.refresh(p);
        let chance: u64 = mul_unit(p.mu, phi);
        if draw < chance {
            self.has_moved = true;
            true
        } else {
            false
        }
    }

    /// The attempt to give birth among `n_same` of the species, given the
    /// draw and the weight sampled for the offspring.
    pub fn deliver(&mut self, p: &SpeciesParams, n_same: u32, draw: u64, birth_weight: u64) -> (r:
        BirthResult)
        requires
            consistent(*old(self), *p),
        ensures
            *final(self) == delivered(*old(self), *p, n_same, draw, birth_weight),
            r == birth_outcome(*old(self), *p, n_same, draw, birth_weight),
            old(self).weight < birth_threshold(*p) ==> !r.given_birth,
            birth_weight >= old(self).weight ==> !r.given_birth
                && final(self).weight == old(self).weight,
    {
        let phi: u64 = self.refresh(p);
        let threshold: u64 = mul_unit(p.zeta, add_capped(p.w_birth, p.sigma_birth));
        let others: u64 = if n_same >= 1 {
            (n_same - 1) as u64
        } else {
            0
        };
        let single: u64 = mul_unit(p.gamma, phi);
        assert(0 <= (single as int) * (others as int) <= 0xFFFF_FFFF_FFFF_FFFF * 0xFFFF_FFFF)
            by (nonlinear_arith)
            requires
                0 <= single <= 0xFFFF_FFFF_FFFF_FFFF,
                0 <= others <= 0xFFFF_FFFF,
        ;
        let wide: u128 = (single as u128) * (others as u128);
        let chance: u64 = if wide > u64::MAX as u128 {
            u64::MAX
        } else {
            wide as u64
        };
        let granted: bool = self.weight >= threshold && (chance >= UNIT || draw < chance);
        if granted && birth_weight < self.weight {
            let cost: u64 = mul_unit(p.xi, birth_weight);
            self.weight = sub_floored(self.weight, cost);
            self.fitness = 0;
            self.fitness_valid = false;
            BirthResult { given_birth: true, birth_weight: Some(birth_weight) }
        } else {
            BirthResult { given_birth: false, birth_weight: None }
        }
    }

    /// Eats from `fodder` and returns what is left of it.
    pub fn graze(&mut self, p: &SpeciesParams, fodder: u64) -> (left: u64)
        ensures
            *final(self) == fed(*old(self), *p, fodder),
            left == fodder - portion(*p, fodder),
            left <= fodder,
    {
        let eaten: u64 = if p.f <= fodder {
            p.f
        } else {
            fodder
        };
        self.weight = add_capped(self.weight, mul_unit(p.beta, eaten));
        self.fitness = 0;
        self.fitness_valid = false;
        fodder - eaten
    }
}

/// Computes the weight of a newborn from a deviate in millionths of a
/// standard deviation.
pub fn birth_weight_from(p: &SpeciesParams, deviate: i64) -> (w: u64)
    ensures
        w == birth_weight_of(*p, deviate),
{
    if deviate >= 0 {
        add_capped(p.w_birth, mul_unit(p.sigma_birth, deviate as u64))
    } else {
        let size: u64 = if deviate == i64::MIN {
            9_223_372_036_854_775_808u64
        } else {
            (-deviate) as u64
        };
        sub_floored(p.w_birth, mul_unit(p.sigma_birth, size))
    }
}

/// What every species offers: the yearly rules, each a function of the
/// individual's record, the constants of its species and the draws it is
/// given.
pub trait AnimalTraits: Sized {
    /// The individual's record.
    spec fn record(&self) -> Health;

    /// The constants of the species.
    spec fn species() -> SpeciesParams;

    /// The constants of the species.
    fn params() -> (p: SpeciesParams)
        ensures
            p == Self::species(),
    ;

    /// The individual's record.
    fn health(&self) -> (h: Health)
        ensures
            h == self.record(),
    ;

    /// The individual with the given record.
    fn from_health(h: Health) -> (a: Self)
        ensures
            a.record() == h,
    ;

    /// One year passes.
    fn aging(&mut self)
        ensures
            final(self).record() == grown(old(self).record()),
    ;

    /// Decides, given the draw, whether the individual leaves its cell, and
    /// marks it if so.
    fn migrate(&mut self, draw: u64) -> (moved: bool)
        requires
            consistent(old(self).record(), Self::species()),
        ensures
            final(self).record() == roamed(old(self).record(), Self::species(), draw),
            moved == wanders(old(self).record(), Self::species(), draw),
    ;

    /// The weight of an offspring for a deviate in millionths of a standard
    /// deviation.
    fn birth_weight(&self, deviate: i64) -> (w: u64)
        ensures
            w == birth_weight_of(Self::species(), deviate),
    ;

    /// The yearly trial of death, given the draw: certain without weight.
    fn death(&mut self, draw: u64)
        requires
            consistent(old(self).record(), Self::species()),
        ensures
            final(self).record() == judged(old(self).record(), Self::species(), draw),
            old(self).record().weight == 0 ==> !final(self).record().is_alive,
    ;

    /// The fitness of the present age and weight; the record keeps it.
    fn get_fitness(&mut self) -> (r: u64)
        requires
            consistent(old(self).record(), Self::species()),
        ensures
            final(self).record() == fresh(old(self).record(), Self::species()),
            r == fitness_of(Self::species(), old(self).record().age, old(self).record().weight),
            r <= UNIT,
    ;

    /// Computes the fitness anew and keeps it in the record.
    fn set_fitness(&mut self)
        ensures
            final(self).record() == fresh(old(self).record(), Self::species()),
    ;

    /// The yearly loss of weight.
    fn lose_weight(&mut self)
        ensures
            final(self).record() == slimmed(old(self).record(), Self::species()),
    ;

    /// The attempt to give birth among `n_same` of the species in the cell,
    /// given the draw and the weight sampled for the offspring. No birth is
    /// tried below the threshold weight, and none takes place unless the
    /// offspring weighs less than the parent; only a birth costs weight.
    fn give_birth(&mut self, n_same: u32, draw: u64, birth_weight: u64) -> (r: BirthResult)
        requires
            consistent(old(self).record(), Self::species()),
        ensures
            final(self).record() == delivered(
                old(self).record(),
                Self::species(),
                n_same,
                draw,
                birth_weight,
            ),
            r == birth_outcome(old(self).record(), Self::species(), n_same, draw, birth_weight),
            old(self).record().weight < birth_threshold(Self::species()) ==> !r.given_birth,
            birth_weight >= old(self).record().weight ==> !r.given_birth
                && final(self).record().weight == old(self).record().weight,
    ;

    fn is_alive(&self) -> (r: bool)
        ensures
            r == self.record().is_alive,
    ;
}

/// An individual of the grazing species.
#[derive(Debug, Clone, Copy)]
pub struct Herbivore {
    pub health: Health,
}

/// An individual of the hunting species.
#[derive(Debug, Clone, Copy)]
pub struct Carnivore {
    pub health: Health,
}

impl Herbivore {
    /// A herbivore of the given weight, in millionths, and age.
    pub fn new(weight: u64, age: u32) -> (r: Self)
        ensures
            r.health == founded(herbivore_constants(), weight, age),
            consistent(r.health, herbivore_constants()),
    {
        let p = herbivore_params();
        Herbivore { health: Health::found(&p, weight, age) }
    }

    /// Eats its appetite from `fodder`, or all of it where there is less,
    /// gains `beta` times what it ate, and returns what is left.
    pub fn eat_fodder(&mut self, fodder: u64) -> (left: u64)
        ensures
            final(self).health == fed(old(self).health, herbivore_constants(), fodder),
            left == fodder - portion(herbivore_constants(), fodder),
            left <= fodder,
    {
        let p = herbivore_params();
        self.health.graze(&p, fodder)
    }

    /// The herbivore falls prey.
    pub fn kill(&mut self)
        ensures
            final(self).health == slain(old(self).health),
    {
        self.health.is_alive = false;
    }
}

impl AnimalTraits for Herbivore {
    open spec fn record(&self) -> Health {
        self.health
    }

    open spec fn species() -> SpeciesParams {
        herbivore_constants()
    }

    fn params() -> (p: SpeciesParams) {
        herbivore_params()
    }

    fn health(&self) -> (h: Health) {
        self.health
    }

    fn from_health(h: Health) -> (a: Self) {
        Herbivore { health: h }
    }

    fn aging(&mut self) {
        self.health.grow();
    }

    fn migrate(&mut self, draw: u64) -> (moved: bool) {
        let p = herbivore_params();
        self.health.roam(&p, draw)
    }

    fn birth_weight(&self, deviate: i64) -> (w: u64) {
        let p = herbivore_params();
        birth_weight_from(&p, deviate)
    }

    fn death(&mut self, draw: u64) {
        let p = herbivore_params();
        self.health.judge(&p, draw);
    }

    fn get_fitness(&mut self) -> (r: u64) {
        let p = herbivore_params();
        self.health.refresh(&p)
    }

    fn set_fitness(&mut self) {
        let p = herbivore_params();
        self.health.recompute(&p);
    }

    fn lose_weight(&mut self) {
        let p = herbivore_params();
        self.health.slim(&p);
    }

    fn give_birth(&mut self, n_same: u32, draw: u64, birth_weight: u64) -> (r: BirthResult) {
        let p = herbivore_params();
        self.health.deliver(&p, n_same, draw, birth_weight)
    }

    fn is_alive(&self) -> (r: bool) {
        self.health.is_alive
    }
}

impl AnimalTraits for Carnivore {
    open spec fn record(&self) -> Health {
        self.health
    }

    open spec fn species() -> SpeciesParams {
        carnivore_constants()
    }

    fn params() -> (p: SpeciesParams) {
        carnivore_params()
    }

    fn health(&self) -> (h: Health) {
        self.health
    }

    fn from_health(h: Health) -> (a: Self) {
        Carnivore { health: h }
    }

    fn aging(&mut self) {
        self.health.grow();
    }

    fn migrate(&mut self, draw: u64) -> (moved: bool) {
        let p = carnivore_params();
        self.health.roam(&p, draw)
    }

    fn birth_weight(&self, deviate: i64) -> (w: u64) {
        let p = carnivore_params();
        birth_weight_from(&p, deviate)
    }

    fn death(&mut self, draw: u64) {
        let p = carnivore_params();
        self.health.judge(&p, draw);
    }

    fn get_fitness(&mut self) -> (r: u64) {
        let p = carnivore_params();
        self.health.refresh(&p)
    }

    fn set_fitness(&mut self) {
        let p = carnivore_params();
        self.health.recompute(&p);
    }

    fn lose_weight(&mut self) {
        let p = carnivore_params();
        self.health.slim(&p);
    }

    fn give_birth(&mut self, n_same: u32, draw: u64, birth_weight: u64) -> (r: BirthResult) {
        let p = carnivore_params();
        self.health.deliver(&p, n_same, draw, birth_weight)
    }

    fn is_alive(&self) -> (r: bool) {
        self.health.is_alive
    }
}

/// The fitness lead from which a carnivore's kill is certain: the
/// `delta_phi_max` of the carnivores.
pub open spec fn hunting_reach() -> u64 {
    match carnivore_constants().delta_phi_max {
        Some(d) => d,
        None => 0,
    }
}

/// The mass that a hunter of the given fitness has eaten once it has tried
/// the first `k` of the prey in turn: each catch adds the prey's weight, up
/// to the hunter's appetite, and a sated hunter tries no more.
pub open spec fn eaten(prey: Seq<Health>, draws: Seq<u64>, hunter_fitness: u64, k: int) -> int
    decreases k, 0int,
{
    if k <= 0 {
        0
    } else {
        let before = eaten(prey, draws, hunter_fitness, k - 1);
        if falls(prey, draws, hunter_fitness, k - 1) {
            let appetite = carnivore_constants().f as int;
            if before + prey[k - 1].weight > appetite {
                appetite
            } else {
                before + prey[k - 1].weight
            }
        } else {
            before
        }
    }
}

/// Whether the hunter is still hungry when it comes to prey `k`.
pub open spec fn hungry(prey: Seq<Health>, draws: Seq<u64>, hunter_fitness: u64, k: int) -> bool
    decreases k, 1int,
{
    eaten(prey, draws, hunter_fitness, k) < carnivore_constants().f
}

/// Whether prey `k` is caught: the hunter is still hungry and the catch
/// succeeds.
pub open spec fn falls(prey: Seq<Health>, draws: Seq<u64>, hunter_fitness: u64, k: int) -> bool
    decreases k, 2int,
{
    k >= 0 && hungry(prey, draws, hunter_fitness, k) && catches(
        hunting_reach(),
        hunter_fitness,
        fitness_of(herbivore_constants(), prey[k].age, prey[k].weight) as u64,
        draws[k],
    )
}

/// The number of catches among the first `k` of the prey.
pub open spec fn catch_count(prey: Seq<Health>, draws: Seq<u64>, hunter_fitness: u64, k: int) -> int
    decreases k,
{
    if k <= 0 {
        0
    } else {
        catch_count(prey, draws, hunter_fitness, k - 1) + if falls(
            prey,
            draws,
            hunter_fitness,
            k - 1,
        ) {
            1int
        } else {
            0int
        }
    }
}

/// The record of prey `k` after the hunt: killed if caught, looked at if the
/// hunter was still hungry, else as it was.
pub open spec fn hunted(prey: Seq<Health>, draws: Seq<u64>, hunter_fitness: u64, k: int) -> Health {
    if falls(prey, draws, hunter_fitness, k) {
        slain(fresh(prey[k], herbivore_constants()))
    } else if hungry(prey, draws, hunter_fitness, k) {
        fresh(prey[k], herbivore_constants())
    } else {
        prey[k]
    }
}

/// The hunter's record after the hunt: it gains `beta` times what it ate.
pub open spec fn gorged(h: Health, prey: Seq<Health>, draws: Seq<u64>) -> Health {
    let p = carnivore_constants();
    let phi = fitness_of(p, h.age, h.weight) as u64;
    let mass = eaten(prey, draws, phi, prey.len() as int);
    if catch_count(prey, draws, phi, prey.len() as int) > 0 {
        Health {
            weight: raised(h.weight as int, capped(scaled(p.beta as int, mass))) as u64,
            fitness: 0,
            fitness_valid: false,
            ..h
        }
    } else {
        fresh(h, p)
    }
}

/// A hunter never eats more than its appetite, and catches no more than it
/// tries.
pub proof fn lemma_eaten_bounds(prey: Seq<Health>, draws: Seq<u64>, hunter_fitness: u64, k: int)
    ensures
        0 <= eaten(prey, draws, hunter_fitness, k) <= carnivore_constants().f,
        0 <= catch_count(prey, draws, hunter_fitness, k),
        k >= 0 ==> catch_count(prey, draws, hunter_fitness, k) <= k,
    decreases k,
{
    if k > 0 {
        lemma_eaten_bounds(prey, draws, hunter_fitness, k - 1);
    }
}

/// A hunter gains no more than `beta` times its appetite, whatever the
/// prey and the draws.
pub proof fn lemma_gorged_bounds(h: Health, prey: Seq<Health>, draws: Seq<u64>)
    ensures
        gorged(h, prey, draws).weight <= h.weight + scaled(
            carnivore_constants().beta as int,
            carnivore_constants().f as int,
        ),
        gorged(h, prey, draws).weight >= h.weight,
{
    let p = carnivore_constants();
    let phi = fitness_of(p, h.age, h.weight) as u64;
    let mass = eaten(prey, draws, phi, prey.len() as int);
    lemma_eaten_bounds(prey, draws, phi, prey.len() as int);
    crate::units::lemma_scaled_monotone(p.beta as int, mass, p.f as int);
}

impl Carnivore {
    /// A carnivore of the given weight, in millionths, and age.
    pub fn new(weight: u64, age: u32) -> (r: Self)
        ensures
            r.health == founded(carnivore_constants(), weight, age),
            consistent(r.health, carnivore_constants()),
    {
        let p = carnivore_params();
        Carnivore { health: Health::found(&p, weight, age) }
    }

    /// Hunts through the herbivores in the order given, with one draw for
    /// each, until its appetite is met, and returns the number killed. A
    /// herbivore with no less fitness than the hunter is never caught; one
    /// that trails by `delta_phi_max` or more always is. The killed stay in
    /// the list, marked dead.
    pub fn kill_prey(&mut self, sorted_herbivores: &mut Vec<Herbivore>, draws: &Vec<u64>) -> (killed:
        u32)
        requires
            consistent(old(self).health, carnivore_constants()),
            forall|i: int|
                0 <= i < old(sorted_herbivores)@.len() ==> consistent(
                    #[trigger] old(sorted_herbivores)@[i].health,
                    herbivore_constants(),
                ),
            old(sorted_herbivores)@.len() <= draws@.len(),
            old(sorted_herbivores)@.len() <= u32::MAX,
        ensures
            final(sorted_herbivores)@.len() == old(sorted_herbivores)@.len(),
            forall|i: int|
                0 <= i < old(sorted_herbivores)@.len() ==> (#[trigger] final(
                    sorted_herbivores)@[i]).health == hunted(
                    prey_records(old(sorted_herbivores)@),
                    draws@,
                    fitness_of(carnivore_constants(), old(self).health.age, old(self).health.weight) as u64,
                    i,
                ),
            final(self).health == gorged(old(self).health, prey_records(old(sorted_herbivores)@), draws@),
            killed == catch_count(
                prey_records(old(sorted_herbivores)@),
                draws@,
                fitness_of(carnivore_constants(), old(self).health.age, old(self).health.weight) as u64,
                old(sorted_herbivores)@.len() as int,
            ),
            final(self).health.weight <= old(self).health.weight + scaled(
                carnivore_constants().beta as int,
                carnivore_constants().f as int,
            ),
    {
        let p = carnivore_params();
        let prey_p = herbivore_params();
        let phi: u64 = self.health.refresh(&p);
        let reach: u64 = match p.delta_phi_max {
            Some(d) => d,
            None => 0,
        };
        let ghost prey = prey_records(sorted_herbivores@);
        let n: usize = sorted_herbivores.len();
        let mut mass: u64 = 0;
        let mut killed: u32 = 0;
        let mut i: usize = 0;
        while i < n
            invariant
                i <= n,
                n == prey.len(),
                n <= u32::MAX,
                n <= draws@.len(),
                sorted_herbivores@.len() == n,
                p == carnivore_constants(),
                prey_p == herbivore_constants(),
                reach == hunting_reach(),
                phi <= UNIT,
                mass == eaten(prey, draws@, phi, i as int),
                mass <= p.f,
                killed == catch_count(prey, draws@, phi, i as int),
                killed <= i,
                forall|j: int|
                    0 <= j < i ==> (#[trigger] sorted_herbivores@[j]).health == hunted(
                        prey,
                        draws@,
                        phi,
                        j,
                    ),
                forall|j: int| i <= j < n ==> (#[trigger] sorted_herbivores@[j]).health == prey[j],
                forall|j: int| 0 <= j < n ==> consistent(#[trigger] prey[j], herbivore_constants()),
            decreases n - i,
        {
            proof {
                lemma_fitness_bounds(herbivore_constants(), prey[i as int].age, prey[i as int].weight);
                assert(hungry(prey, draws@, phi, i as int) == (mass < p.f));
                assert(falls(prey, draws@, phi, i as int) == (mass < p.f && catches(
                    hunting_reach(),
                    phi,
                    fitness_of(herbivore_constants(), prey[i as int].age, prey[i as int].weight) as u64,
                    draws@[i as int],
                )));
            }
            if mass < p.f {
                let mut herb: Herbivore = sorted_herbivores[i];
                let prey_phi: u64 = herb.health.refresh(&prey_p);
                if kill_succeeds(reach, phi, prey_phi, draws[i]) {
                    killed = killed + 1;
                    mass = if herb.health.weight >= p.f - mass {
                        p.f
                    } else {
                        mass + herb.health.weight
                    };
                    herb.kill();
                }
                sorted_herbivores.set(i, herb);
            }
            i = i + 1;
        }
        proof {
            lemma_eaten_bounds(prey, draws@, phi, n as int);
            crate::units::lemma_scaled_monotone(p.beta as int, mass as int, p.f as int);
        }
        if killed > 0 {
            self.health.weight = add_capped(self.health.weight, mul_unit(p.beta, mass));
            self.health.fitness = 0;
            self.health.fitness_valid = false;
        }
        killed
    }
}

/// The records of a list of herbivores.
pub open spec fn prey_records(herd: Seq<Herbivore>) -> Seq<Health> {
    herd.map_values(|a: Herbivore| a.health)
}

} // verus!
