use biosim::animal::carnivore_params;
use biosim::animal::fitness;
use biosim::animal::herbivore_params;
use biosim::animal::kill_succeeds;
use biosim::animal::AnimalTraits;
use biosim::animal::Carnivore;
use biosim::animal::Herbivore;
use biosim::units::UNIT;
use biosim::logistic::exp_neg;
use biosim::util::q;

#[test]
fn one_is_a_million() {
    assert_eq!(UNIT, 1_000_000);
}

#[test]
fn exponential_of_zero_is_one() {
    assert_eq!(exp_neg(0), UNIT);
}

#[test]
fn exponential_of_whole_numbers_is_rounded_down() {
    assert_eq!(exp_neg(1_000_000), 367_879);
    assert_eq!(exp_neg(2_000_000), 135_335);
    assert_eq!(exp_neg(13_000_000), 2);
    assert_eq!(exp_neg(14_000_000), 0);
    assert_eq!(exp_neg(15_000_000), 0);
    assert_eq!(exp_neg(u64::MAX), 0);
}

#[test]
fn exponential_of_a_tenth_and_of_a_thousandth_is_close() {
    // e^-0.1 = 0.904837418..., e^-0.001 = 0.999000499..., e^-0.123456 = 0.883860...
    assert_eq!(exp_neg(100_000), 904_837);
    assert_eq!(exp_neg(1_000), 999_000);
    assert_eq!(exp_neg(1), 999_999);
    let r = exp_neg(123_456);
    assert!(r >= 883_859 && r <= 883_861, "{}", r);
}

#[test]
fn exponential_never_rises() {
    // across every step of every digit of the exponent
    let mut last = exp_neg(0);
    let mut u: u64 = 1;
    while u < 300_000 {
        let now = exp_neg(u);
        assert!(now <= last, "{}", u);
        last = now;
        u += 1;
    }
    for whole in 1..16u64 {
        let before = exp_neg(whole * 1_000_000 - 1);
        let at = exp_neg(whole * 1_000_000);
        let after = exp_neg(whole * 1_000_000 + 1);
        assert!(before >= at && at >= after, "{}", whole);
    }
    let mut last = exp_neg(0);
    let mut u: u64 = 0;
    while u < 16_000_000 {
        let now = exp_neg(u);
        assert!(now <= last, "{}", u);
        last = now;
        u += 997;
    }
}

#[test]
fn fitness_never_falls_with_weight_and_never_rises_with_age() {
    let hp = herbivore_params();
    let cp = carnivore_params();
    // where the weight term comes close to one
    assert!(fitness(&hp, 0, 149_999_990) <= fitness(&hp, 0, 150_000_000));
    for p in [&hp, &cp] {
        let mut last = fitness(p, 3, 0);
        let mut w: u64 = 0;
        while w < 200_000_000 {
            let now = fitness(p, 3, w);
            assert!(now >= last, "{}", w);
            last = now;
            w += 9_973;
        }
        let mut last = fitness(p, 0, 20_000_000);
        for age in 0..200u32 {
            let now = fitness(p, age, 20_000_000);
            assert!(now <= last, "{}", age);
            last = now;
        }
    }
}

#[test]
fn exponential_of_a_half_is_close() {
    // e^-0.5 = 0.606530...
    let r = exp_neg(500_000);
    assert!(r >= 606_528 && r <= 606_532, "{}", r);
}

#[test]
fn exponential_never_exceeds_one() {
    let mut u: u64 = 0;
    while u < 16_000_000 {
        assert!(exp_neg(u) <= UNIT);
        u += 37_511;
    }
}

#[test]
fn logistic_is_one_half_at_its_midpoint() {
    assert_eq!(q(1, 40_000_000, 40_000_000, 600_000), 500_000);
    assert_eq!(q(-1, 10_000_000, 10_000_000, 100_000), 500_000);
}

#[test]
fn logistic_falls_with_a_positive_sign_and_rises_with_a_negative_one() {
    // 1 / (1 + e^1) = 0.268941, 1 / (1 + e^-1) = 0.731058
    let low = q(1, 42_000_000, 40_000_000, 500_000);
    let high = q(-1, 42_000_000, 40_000_000, 500_000);
    assert!(low >= 268_939 && low <= 268_943, "{}", low);
    assert!(high >= 731_056 && high <= 731_060, "{}", high);
    let before = q(1, 38_000_000, 40_000_000, 500_000);
    assert!(before >= 731_056 && before <= 731_060, "{}", before);
}

#[test]
fn logistic_far_from_the_midpoint_is_zero_or_one() {
    assert_eq!(q(1, 0, 40_000_000, 600_000), UNIT);
    assert_eq!(q(1, 100_000_000, 40_000_000, 600_000), 0);
    assert_eq!(q(-1, u64::MAX, 0, u64::MAX), UNIT);
    assert_eq!(q(1, u64::MAX, 0, u64::MAX), 0);
}

#[test]
fn fitness_stays_between_zero_and_one() {
    let hp = herbivore_params();
    let cp = carnivore_params();
    let ages: [u32; 7] = [0, 1, 5, 40, 70, 200, u32::MAX];
    let weights: [u64; 8] = [0, 1, 500_000, 4_000_000, 10_000_000, 50_000_000, 1 << 40, u64::MAX];
    for a in ages {
        for w in weights {
            assert!(fitness(&hp, a, w) <= UNIT);
            assert!(fitness(&cp, a, w) <= UNIT);
        }
    }
}

#[test]
fn fitness_of_a_young_herbivore_at_the_midpoint_weight_is_one_half() {
    let hp = herbivore_params();
    assert_eq!(fitness(&hp, 0, 10_000_000), 500_000);
}

#[test]
fn a_new_individual_is_alive_and_has_its_fitness() {
    let h = Herbivore::new(10_000_000, 0);
    assert!(h.is_alive());
    assert!(!h.health.has_moved);
    assert_eq!(h.health.weight, 10_000_000);
    assert_eq!(h.health.age, 0);
    assert_eq!(h.health.fitness, 500_000);
    let c = Carnivore::new(4_000_000, 0);
    assert_eq!(c.health.fitness, 500_000);
}

#[test]
fn aging_adds_a_year_and_drops_the_cached_fitness() {
    let mut h = Herbivore::new(10_000_000, 3);
    h.aging();
    assert_eq!(h.health.age, 4);
    assert!(!h.health.fitness_valid);
    let hp = herbivore_params();
    assert_eq!(h.get_fitness(), fitness(&hp, 4, 10_000_000));
    assert!(h.health.fitness_valid);
}

#[test]
fn age_stops_at_the_largest_number() {
    let mut h = Herbivore::new(10_000_000, u32::MAX);
    h.aging();
    assert_eq!(h.health.age, u32::MAX);
}

#[test]
fn weight_loss_takes_the_share_eta() {
    let mut h = Herbivore::new(10_000_000, 3);
    h.lose_weight();
    assert_eq!(h.health.weight, 9_500_000);
    let mut c = Carnivore::new(8_000_000, 3);
    c.lose_weight();
    assert_eq!(c.health.weight, 7_000_000);
}

#[test]
fn set_fitness_fills_the_cache() {
    let mut h = Herbivore::new(10_000_000, 3);
    h.lose_weight();
    h.set_fitness();
    let hp = herbivore_params();
    assert!(h.health.fitness_valid);
    assert_eq!(h.health.fitness, fitness(&hp, 3, 9_500_000));
}

#[test]
fn without_weight_death_is_certain_whatever_the_draw() {
    for draw in [0u64, 1, 399_999, 999_999, u64::MAX] {
        let mut h = Herbivore::new(0, 2);
        h.death(draw);
        assert!(!h.is_alive());
        let mut c = Carnivore::new(0, 2);
        c.death(draw);
        assert!(!c.is_alive());
    }
}

#[test]
fn death_comes_when_the_draw_is_below_omega_times_unfitness() {
    // fitness one half: the probability is 0.4 * 0.5 = 0.2
    let mut h = Herbivore::new(10_000_000, 0);
    h.death(199_999);
    assert!(!h.is_alive());
    let mut h = Herbivore::new(10_000_000, 0);
    h.death(200_000);
    assert!(h.is_alive());
}

#[test]
fn migration_comes_when_the_draw_is_below_mu_times_fitness() {
    // fitness one half: the probability is 0.25 * 0.5 = 0.125
    let mut h = Herbivore::new(10_000_000, 0);
    assert!(h.migrate(124_999));
    assert!(h.health.has_moved);
    let mut h = Herbivore::new(10_000_000, 0);
    assert!(!h.migrate(125_000));
    assert!(!h.health.has_moved);
}

#[test]
fn no_birth_below_the_threshold_weight() {
    // threshold of the herbivores: 3.2 * (8 + 1.5) = 30.4
    for n in [1u32, 2, 10, 1000, u32::MAX] {
        for draw in [0u64, 500_000, 999_999] {
            let mut h = Herbivore::new(30_399_999, 5);
            let r = h.give_birth(n, draw, 1_000_000);
            assert!(!r.given_birth);
            assert!(r.birth_weight.is_none());
            assert_eq!(h.health.weight, 30_399_999);
        }
    }
    // threshold of the carnivores: 3.5 * (6 + 1) = 24.5
    let mut c = Carnivore::new(24_499_999, 5);
    let r = c.give_birth(1000, 0, 1_000_000);
    assert!(!r.given_birth);
}

#[test]
fn birth_is_certain_when_the_probability_reaches_one() {
    let mut h = Herbivore::new(40_000_000, 5);
    let hp = herbivore_params();
    let phi = fitness(&hp, 5, 40_000_000);
    assert!(phi > 900_000);
    // 0.2 * phi * 99 is far above one
    let r = h.give_birth(100, 999_999, 8_000_000);
    assert!(r.given_birth);
    assert_eq!(r.birth_weight, Some(8_000_000));
    // the parent loses 1.8 times the newborn's weight
    assert_eq!(h.health.weight, 40_000_000 - 14_400_000);
    assert!(!h.health.fitness_valid);
}

#[test]
fn alone_in_the_cell_there_is_no_birth() {
    let mut h = Herbivore::new(40_000_000, 5);
    let r = h.give_birth(1, 0, 8_000_000);
    assert!(!r.given_birth);
    let mut h = Herbivore::new(40_000_000, 5);
    let r = h.give_birth(0, 0, 8_000_000);
    assert!(!r.given_birth);
    assert_eq!(h.health.weight, 40_000_000);
}

#[test]
fn birth_follows_the_draw_when_the_probability_is_below_one() {
    let hp = herbivore_params();
    let phi = fitness(&hp, 5, 40_000_000);
    // two in the cell: the probability is 0.2 * phi
    let chance = 200_000 * phi / UNIT;
    let mut h = Herbivore::new(40_000_000, 5);
    assert!(h.give_birth(2, chance - 1, 8_000_000).given_birth);
    let mut h = Herbivore::new(40_000_000, 5);
    assert!(!h.give_birth(2, chance, 8_000_000).given_birth);
    assert_eq!(h.health.weight, 40_000_000);
}

#[test]
fn a_newborn_as_heavy_as_its_parent_is_not_born() {
    let mut h = Herbivore::new(40_000_000, 5);
    let r = h.give_birth(100, 0, 40_000_000);
    assert!(!r.given_birth);
    assert!(r.birth_weight.is_none());
    assert_eq!(h.health.weight, 40_000_000);
    let mut h = Herbivore::new(40_000_000, 5);
    let r = h.give_birth(100, 0, 90_000_000);
    assert!(!r.given_birth);
    assert_eq!(h.health.weight, 40_000_000);
    let mut h = Herbivore::new(40_000_000, 5);
    let r = h.give_birth(100, 0, 39_999_999);
    assert!(r.given_birth);
    // the cost exceeds the weight: the parent is left without any
    assert_eq!(h.health.weight, 0);
}

#[test]
fn birth_weight_is_mean_plus_deviate_times_spread() {
    let h = Herbivore::new(40_000_000, 5);
    assert_eq!(h.birth_weight(0), 8_000_000);
    assert_eq!(h.birth_weight(1_000_000), 9_500_000);
    assert_eq!(h.birth_weight(-2_000_000), 5_000_000);
    assert_eq!(h.birth_weight(-6_000_000), 0);
    let c = Carnivore::new(40_000_000, 5);
    assert_eq!(c.birth_weight(500_000), 6_500_000);
}

#[test]
fn a_herbivore_eats_its_appetite_and_gains_nine_tenths_of_it() {
    let mut h = Herbivore::new(20_000_000, 5);
    let left = h.eat_fodder(300_000_000);
    assert_eq!(left, 290_000_000);
    assert_eq!(h.health.weight, 29_000_000);
}

#[test]
fn a_herbivore_eats_what_is_left_when_that_is_less() {
    let mut h = Herbivore::new(20_000_000, 5);
    let left = h.eat_fodder(4_000_000);
    assert_eq!(left, 0);
    assert_eq!(h.health.weight, 23_600_000);
    let left = h.eat_fodder(0);
    assert_eq!(left, 0);
    assert_eq!(h.health.weight, 23_600_000);
}

#[test]
fn kill_marks_the_herbivore_dead() {
    let mut h = Herbivore::new(20_000_000, 5);
    h.kill();
    assert!(!h.is_alive());
    assert_eq!(h.health.weight, 20_000_000);
}

#[test]
fn a_lead_of_delta_phi_max_kills_whatever_the_draw() {
    for draw in [0u64, 1, 500_000, 999_999, u64::MAX] {
        assert!(kill_succeeds(300_000, 900_000, 600_000, draw));
        assert!(kill_succeeds(300_000, 900_000, 100_000, draw));
    }
}

#[test]
fn without_a_lead_nothing_is_caught() {
    for draw in [0u64, 1, 500_000, 999_999, u64::MAX] {
        assert!(!kill_succeeds(9_000_000, 500_000, 500_000, draw));
        assert!(!kill_succeeds(9_000_000, 400_000, 500_000, draw));
    }
}

#[test]
fn in_between_the_draw_decides_by_the_share_of_the_lead() {
    // lead 0.45 of delta_phi_max 9: the probability is 0.05
    assert!(kill_succeeds(9_000_000, 950_000, 500_000, 49_999));
    assert!(!kill_succeeds(9_000_000, 950_000, 500_000, 50_000));
}

#[test]
fn a_hunter_stops_at_its_appetite() {
    let mut c = Carnivore::new(20_000_000, 5);
    let w0 = c.health.weight;
    let mut herd = vec![Herbivore::new(4_000_000, 60); 5];
    // draws of zero: every try succeeds while the hunter is fitter
    let draws = vec![0u64; 5];
    let killed = c.kill_prey(&mut herd, &draws);
    // two herbivores of weight four meet the appetite of six
    assert_eq!(killed, 2);
    assert!(!herd[0].is_alive());
    assert!(!herd[1].is_alive());
    assert!(herd[2].is_alive());
    assert!(herd[3].is_alive());
    assert!(herd[4].is_alive());
    // the gain is three quarters of the appetite, not of what was killed
    assert_eq!(c.health.weight, w0 + 4_500_000);
}

#[test]
fn a_hunter_that_catches_nothing_gains_nothing() {
    let mut c = Carnivore::new(20_000_000, 5);
    let mut herd = vec![Herbivore::new(4_000_000, 60); 3];
    let draws = vec![999_999u64; 3];
    let killed = c.kill_prey(&mut herd, &draws);
    assert_eq!(killed, 0);
    assert_eq!(c.health.weight, 20_000_000);
    assert!(herd.iter().all(|h| h.is_alive()));
}

#[test]
fn a_hunter_never_catches_a_fitter_herbivore() {
    let mut c = Carnivore::new(1_000_000, 90);
    let mut herd = vec![Herbivore::new(40_000_000, 5); 3];
    let draws = vec![0u64; 3];
    let killed = c.kill_prey(&mut herd, &draws);
    assert_eq!(killed, 0);
    assert!(herd.iter().all(|h| h.is_alive()));
}

#[test]
fn a_hunt_goes_by_the_delta_phi_max_of_the_carnivores() {
    let cp = carnivore_params();
    let hp = herbivore_params();
    assert_eq!(cp.delta_phi_max, Some(9_000_000));
    assert_eq!(hp.delta_phi_max, None);
    let lead = fitness(&cp, 5, 20_000_000) - fitness(&hp, 60, 4_000_000);
    let odds = lead * 1_000_000 / 9_000_000;
    assert!(odds > 0);
    let mut c = Carnivore::new(20_000_000, 5);
    let mut herd = vec![Herbivore::new(4_000_000, 60)];
    assert_eq!(c.kill_prey(&mut herd, &vec![odds]), 0);
    assert!(herd[0].is_alive());
    let mut c = Carnivore::new(20_000_000, 5);
    assert_eq!(c.kill_prey(&mut herd, &vec![odds - 1]), 1);
    assert!(!herd[0].is_alive());
}
