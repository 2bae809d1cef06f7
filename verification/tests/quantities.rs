use biosim::animal::AnimalTraits;
use biosim::animal::Herbivore;
use biosim::herd::age_all;
use biosim::herd::average_age;
use biosim::herd::average_weight;
use biosim::herd::breed;
use biosim::herd::collect_movers;
use biosim::herd::cull;
use biosim::herd::drop_movers;
use biosim::herd::rank;
use biosim::herd::refresh_all;
use biosim::herd::slim_all;
use biosim::herd::stage_all;
use biosim::herd::take_in;
use biosim::herd::wean_all;
use biosim::landscape::Coord;
use biosim::units::add_capped;
use biosim::units::mul_unit;
use biosim::units::sub_floored;

#[test]
fn products_are_rounded_down() {
    assert_eq!(mul_unit(2_000_000, 3_000_000), 6_000_000);
    assert_eq!(mul_unit(1, 999_999), 0);
    assert_eq!(mul_unit(1_500_000, 1_500_000), 2_250_000);
    assert_eq!(mul_unit(0, u64::MAX), 0);
    assert_eq!(mul_unit(7, 1_000_000), 7);
}

#[test]
fn products_stop_at_the_largest_quantity() {
    assert_eq!(mul_unit(u64::MAX, u64::MAX), u64::MAX);
    assert_eq!(mul_unit(u64::MAX, 1_000_001), u64::MAX);
    assert_eq!(mul_unit(u64::MAX, 1_000_000), u64::MAX);
    assert_eq!(mul_unit(u64::MAX, 999_999), 18_446_725_626_965_477_905);
}

#[test]
fn sums_stop_at_the_largest_quantity_and_differences_at_zero() {
    assert_eq!(add_capped(3, 4), 7);
    assert_eq!(add_capped(u64::MAX, 1), u64::MAX);
    assert_eq!(add_capped(u64::MAX - 1, 1), u64::MAX);
    assert_eq!(sub_floored(7, 4), 3);
    assert_eq!(sub_floored(4, 7), 0);
    assert_eq!(sub_floored(4, 4), 0);
}

fn herd_of(ages_and_weights: &[(u32, u64)]) -> Vec<Herbivore> {
    ages_and_weights.iter().map(|(a, w)| Herbivore::new(*w, *a)).collect()
}

#[test]
fn ranking_orders_by_fitness_and_keeps_ties_in_place() {
    // fitness falls with age and rises with weight
    let mut herd = herd_of(&[(5, 30_000_000), (50, 5_000_000), (5, 30_000_000), (5, 10_000_000)]);
    herd[0].health.has_moved = true;
    rank(&mut herd, true);
    let ages: Vec<u32> = herd.iter().map(|h| h.health.age).collect();
    assert_eq!(ages, vec![50, 5, 5, 5]);
    assert_eq!(herd[1].health.weight, 10_000_000);
    // the two of equal fitness stand as they stood
    assert!(herd[2].health.has_moved);
    assert!(!herd[3].health.has_moved);
    rank(&mut herd, false);
    let weights: Vec<u64> = herd.iter().map(|h| h.health.weight).collect();
    assert_eq!(weights, vec![30_000_000, 30_000_000, 10_000_000, 5_000_000]);
    assert!(herd[0].health.has_moved);
    assert!(!herd[1].health.has_moved);
}

#[test]
fn ranking_an_empty_list_leaves_it_empty() {
    let mut herd: Vec<Herbivore> = Vec::new();
    rank(&mut herd, true);
    assert!(herd.is_empty());
}

#[test]
fn the_phases_on_a_list_pass_over_the_newborn() {
    let mut herd = herd_of(&[(1, 40_000_000), (2, 40_000_000)]);
    let born = breed(&mut herd, &vec![0, 999_999], &vec![8_000_000, 8_000_000]);
    // with one other of the species the chance is a fifth of the fitness
    assert_eq!(born, 1);
    assert_eq!(herd.len(), 3);
    age_all(&mut herd);
    slim_all(&mut herd);
    let ages: Vec<u32> = herd.iter().map(|h| h.health.age).collect();
    assert_eq!(ages, vec![2, 3, 0]);
    assert_eq!(herd[2].health.weight, 8_000_000);
    assert_eq!(herd[1].health.weight, 38_000_000);
    wean_all(&mut herd);
    assert!(herd.iter().all(|h| !h.health.newborn));
    refresh_all(&mut herd);
    assert!(herd.iter().all(|h| h.health.fitness_valid));
}

#[test]
fn culling_keeps_the_order_of_the_survivors() {
    let mut herd = herd_of(&[(1, 40_000_000), (2, 0), (3, 40_000_000), (4, 0), (5, 40_000_000)]);
    let dead = cull(&mut herd, &vec![999_999; 5]);
    assert_eq!(dead, 2);
    let ages: Vec<u32> = herd.iter().map(|h| h.health.age).collect();
    assert_eq!(ages, vec![1, 3, 5]);
    assert!(herd.iter().all(|h| h.is_alive()));
}

#[test]
fn movers_are_copied_out_with_their_destinations_and_then_dropped() {
    let mut herd = herd_of(&[(1, 40_000_000), (2, 40_000_000), (3, 40_000_000)]);
    stage_all(&mut herd, &vec![0, 999_999, 0]);
    let picks = vec![Coord(0, 1), Coord(0, 2), Coord(0, 3)];
    let (routes, gone) = collect_movers(&herd, &picks);
    assert_eq!(routes, vec![Coord(0, 1), Coord(0, 3)]);
    assert_eq!(gone.len(), 2);
    assert_eq!(gone[0].health.age, 1);
    assert_eq!(gone[1].health.age, 3);
    assert!(gone.iter().all(|h| !h.health.has_moved && !h.health.fitness_valid));
    drop_movers(&mut herd);
    assert_eq!(herd.len(), 1);
    assert_eq!(herd[0].health.age, 2);
    let mut other = herd_of(&[(9, 1_000_000)]);
    take_in(&mut other, &gone);
    let ages: Vec<u32> = other.iter().map(|h| h.health.age).collect();
    assert_eq!(ages, vec![9, 1, 3]);
}

#[test]
fn means_are_rounded_down() {
    let herd = herd_of(&[(1, 1), (2, 2), (2, 2)]);
    assert_eq!(average_age(&herd), 1_666_666);
    assert_eq!(average_weight(&herd), 1);
    let none: Vec<Herbivore> = Vec::new();
    assert_eq!(average_age(&none), 0);
    assert_eq!(average_weight(&none), 0);
}
