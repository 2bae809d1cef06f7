use biosim::animal::AnimalTraits;
use biosim::animal::Carnivore;
use biosim::animal::Herbivore;
use biosim::landscape::get_max_fodder;
use biosim::landscape::AnimalCount;
use biosim::landscape::AnimalList;
use biosim::landscape::Coord;
use biosim::landscape::LandCell;
use biosim::landscape::LandCellType;
use biosim::util::seeded_source;

fn highland_with(herbivores: Vec<Herbivore>, carnivores: Vec<Carnivore>) -> LandCell {
    let mut cell = LandCell::new(LandCellType::Highland, Coord(1, 1), vec![Coord(1, 2)]);
    cell.add_animals(AnimalList { herbivores, carnivores });
    cell
}

#[test]
fn counts_add_up() {
    let mut a = AnimalCount { herbivores: 3, carnivores: 4 };
    assert_eq!(a.total(), 7);
    a.update(AnimalCount { herbivores: 10, carnivores: 20 });
    assert_eq!(a.herbivores, 13);
    assert_eq!(a.carnivores, 24);
    assert_eq!(a.total(), 37);
}

#[test]
fn a_list_counts_its_animals() {
    let list = AnimalList {
        herbivores: vec![Herbivore::new(1_000_000, 1); 3],
        carnivores: vec![Carnivore::new(1_000_000, 1); 2],
    };
    let c = list.animal_count();
    assert_eq!(c.herbivores, 3);
    assert_eq!(c.carnivores, 2);
}

#[test]
fn terrain_fixes_the_food() {
    assert_eq!(get_max_fodder(LandCellType::Lowland), 700_000_000);
    assert_eq!(get_max_fodder(LandCellType::Highland), 300_000_000);
    assert_eq!(get_max_fodder(LandCellType::Desert), 0);
    assert!(get_max_fodder(LandCellType::Lowland) > get_max_fodder(LandCellType::Highland));
}

#[test]
fn a_new_cell_is_empty_and_full_of_food() {
    let cell = LandCell::new(LandCellType::Lowland, Coord(2, 3), vec![Coord(2, 4), Coord(1, 3)]);
    assert_eq!(cell.get_location(), Coord(2, 3));
    assert_eq!(cell.fodder, 700_000_000);
    assert_eq!(cell.herb_count(), 0);
    assert_eq!(cell.carn_count(), 0);
    assert_eq!(cell.animal_count().total(), 0);
    assert_eq!(cell.land_cell_neighbors, vec![Coord(2, 4), Coord(1, 3)]);
}

#[test]
fn one_herbivore_on_highland_gains_nine_and_leaves_two_hundred_and_ninety() {
    let mut cell = highland_with(vec![Herbivore::new(20_000_000, 5)], vec![]);
    let mut rng = seeded_source(7);
    cell.reset_fodder();
    assert_eq!(cell.fodder, 300_000_000);
    let killed = cell.feeding(&mut rng);
    assert_eq!(killed, 0);
    assert_eq!(cell.herbivores[0].health.weight, 29_000_000);
    assert_eq!(cell.fodder, 290_000_000);
}

#[test]
fn grazing_goes_in_order_until_the_food_is_gone() {
    let mut cell = highland_with(vec![Herbivore::new(20_000_000, 5); 3], vec![]);
    cell.fodder = 14_000_000;
    cell.graze();
    assert_eq!(cell.fodder, 0);
    assert_eq!(cell.herbivores[0].health.weight, 29_000_000);
    assert_eq!(cell.herbivores[1].health.weight, 23_600_000);
    assert_eq!(cell.herbivores[2].health.weight, 20_000_000);
}

#[test]
fn feeding_never_takes_more_food_than_there_is() {
    for seed in 0..20u64 {
        let mut cell = highland_with(vec![Herbivore::new(20_000_000, 5); 40], vec![]);
        let mut rng = seeded_source(seed);
        cell.feeding(&mut rng);
        assert_eq!(cell.fodder, 0);
        let fed = cell.herbivores.iter().filter(|h| h.health.weight == 29_000_000).count();
        let unfed = cell.herbivores.iter().filter(|h| h.health.weight == 20_000_000).count();
        assert_eq!(fed, 30);
        assert_eq!(unfed, 10);
    }
}

#[test]
fn the_shuffle_changes_the_order_of_feeding() {
    let mut firsts = std::collections::BTreeSet::new();
    for seed in 0..40u64 {
        let mut herd = Vec::new();
        for k in 0..6u32 {
            herd.push(Herbivore::new(20_000_000, k));
        }
        let mut cell = highland_with(herd, vec![]);
        cell.fodder = 10_000_000;
        let mut rng = seeded_source(seed);
        cell.feeding(&mut rng);
        let fed: Vec<u32> = cell
            .herbivores
            .iter()
            .filter(|h| h.health.weight == 29_000_000)
            .map(|h| h.health.age)
            .collect();
        assert_eq!(fed.len(), 1);
        firsts.insert(fed[0]);
    }
    assert!(firsts.len() > 1);
}

#[test]
fn the_hunt_takes_the_weakest_first_and_the_fittest_hunts_first() {
    let herd = vec![
        Herbivore::new(80_000_000, 5),
        Herbivore::new(4_000_000, 60),
        Herbivore::new(80_000_000, 6),
    ];
    let pack = vec![Carnivore::new(3_000_000, 80), Carnivore::new(20_000_000, 5)];
    let mut cell = highland_with(herd, pack);
    let draws = vec![vec![0u64; 3], vec![0u64; 3]];
    let killed = cell.hunt(&draws);
    // the fit carnivore comes first and catches the one weak herbivore;
    // what is left is fitter than either carnivore
    assert_eq!(killed, 1);
    assert_eq!(cell.herb_count(), 2);
    assert!(cell.herbivores.iter().all(|h| h.health.weight == 80_000_000));
    assert_eq!(cell.carnivores[0].health.age, 5);
    assert_eq!(cell.carnivores[0].health.weight, 23_000_000);
    assert_eq!(cell.carnivores[1].health.age, 80);
    assert_eq!(cell.carnivores[1].health.weight, 3_000_000);
}

#[test]
fn a_hunter_in_a_cell_never_gains_more_than_its_appetite_yields() {
    for seed in 0..10u64 {
        let mut cell =
            highland_with(vec![Herbivore::new(4_000_000, 60); 30], vec![Carnivore::new(20_000_000, 5); 3]);
        let mut rng = seeded_source(seed);
        let killed = cell.feeding(&mut rng);
        assert_eq!(cell.herb_count() + killed, 30);
        for c in cell.carnivores.iter() {
            assert!(c.health.weight <= 20_000_000 + 4_500_000);
        }
    }
}

#[test]
fn aging_and_weight_loss_pass_over_the_newborn() {
    let mut cell = highland_with(vec![Herbivore::new(40_000_000, 5); 2], vec![]);
    // certain births: the draw is zero and two are in the cell
    let born = cell.procreate_with(&vec![0, 0], &vec![8_000_000, 7_000_000], &vec![], &vec![]);
    assert_eq!(born.herbivores, 2);
    assert_eq!(born.carnivores, 0);
    assert_eq!(cell.herb_count(), 4);
    assert_eq!(cell.herbivores[2].health.weight, 8_000_000);
    assert_eq!(cell.herbivores[3].health.weight, 7_000_000);
    assert!(cell.herbivores[2].health.newborn);
    assert_eq!(cell.herbivores[0].health.weight, 40_000_000 - 14_400_000);
    cell.aging();
    cell.lose_weight();
    assert_eq!(cell.herbivores[0].health.age, 6);
    assert_eq!(cell.herbivores[2].health.age, 0);
    assert_eq!(cell.herbivores[2].health.weight, 8_000_000);
    assert_eq!(cell.herbivores[3].health.weight, 7_000_000);
    assert_eq!(cell.herbivores[0].health.weight, 25_600_000 - 1_280_000);
}

#[test]
fn the_newborn_do_not_breed_in_their_year() {
    let mut cell = highland_with(vec![Herbivore::new(40_000_000, 5); 4], vec![]);
    let born = cell.procreate_with(&vec![0; 4], &vec![8_000_000; 4], &vec![], &vec![]);
    assert_eq!(born.herbivores, 4);
    assert_eq!(cell.herb_count(), 8);
}

#[test]
fn the_count_before_the_phase_decides_the_births() {
    // one alone never breeds, whatever the draw
    let mut cell = highland_with(vec![Herbivore::new(40_000_000, 5)], vec![Carnivore::new(40_000_000, 5); 2]);
    let born = cell.procreate_with(&vec![0], &vec![8_000_000], &vec![0, 0], &vec![6_000_000, 6_000_000]);
    assert_eq!(born.herbivores, 0);
    assert_eq!(born.carnivores, 2);
}

#[test]
fn death_removes_everyone_without_weight() {
    let herd = vec![
        Herbivore::new(0, 5),
        Herbivore::new(40_000_000, 5),
        Herbivore::new(0, 1),
        Herbivore::new(30_000_000, 5),
    ];
    let mut cell = highland_with(herd, vec![Carnivore::new(0, 3)]);
    let dead = cell.death_with(&vec![999_999; 4], &vec![999_999]);
    assert_eq!(dead.herbivores, 2);
    assert_eq!(dead.carnivores, 1);
    assert_eq!(cell.herb_count(), 2);
    assert_eq!(cell.carn_count(), 0);
    assert_eq!(cell.herbivores[0].health.weight, 40_000_000);
    assert_eq!(cell.herbivores[1].health.weight, 30_000_000);
}

#[test]
fn death_with_a_random_source_leaves_no_one_without_weight() {
    for seed in 0..20u64 {
        let mut herd = vec![Herbivore::new(0, 5); 10];
        herd.extend(vec![Herbivore::new(20_000_000, 5); 10]);
        let mut cell = highland_with(herd, vec![]);
        let mut rng = seeded_source(seed);
        let dead = cell.death(&mut rng);
        assert!(dead.herbivores >= 10);
        assert_eq!(cell.herb_count() + dead.herbivores, 20);
        assert!(cell.herbivores.iter().all(|h| h.health.weight > 0 && h.is_alive()));
    }
}

#[test]
fn staging_marks_who_leaves_and_hands_out_a_copy() {
    let mut cell = highland_with(vec![Herbivore::new(10_000_000, 0); 3], vec![]);
    // fitness one half: the probability of leaving is 0.125
    let leaving = cell
        .migrate_with(&vec![124_999, 125_000, 0], &vec![Coord(1, 2); 3], &vec![], &vec![])
        .unwrap();
    assert_eq!(cell.herb_count(), 3);
    assert!(cell.herbivores[0].health.has_moved);
    assert!(!cell.herbivores[1].health.has_moved);
    assert!(cell.herbivores[2].health.has_moved);
    assert_eq!(leaving.herbivores.len(), 2);
    assert_eq!(leaving.herbivore_routes, vec![Coord(1, 2), Coord(1, 2)]);
    assert!(leaving.herbivores.iter().all(|h| !h.health.has_moved));
    assert!(leaving.carnivores.is_empty());
    cell.remove_moved();
    assert_eq!(cell.herb_count(), 1);
    assert!(!cell.herbivores[0].health.has_moved);
}

#[test]
fn no_one_leaves_a_cell_without_neighbours() {
    let mut cell = LandCell::new(LandCellType::Lowland, Coord(0, 0), vec![]);
    cell.add_animals(AnimalList { herbivores: vec![Herbivore::new(10_000_000, 0); 5], carnivores: vec![] });
    let mut rng = seeded_source(1);
    for _ in 0..20 {
        assert!(cell.migrate(&mut rng).is_none());
        assert!(cell.herbivores.iter().all(|h| !h.health.has_moved));
    }
    assert!(cell.migrate_with(&vec![0; 5], &vec![], &vec![], &vec![]).is_none());
    assert_eq!(cell.herb_count(), 5);
}

#[test]
fn with_one_neighbour_everyone_who_leaves_goes_there() {
    for seed in 0..20u64 {
        let mut cell = highland_with(vec![Herbivore::new(40_000_000, 5); 50], vec![Carnivore::new(20_000_000, 5); 20]);
        let mut rng = seeded_source(seed);
        let leaving = cell.migrate(&mut rng).unwrap();
        assert!(leaving.herbivore_routes.iter().all(|c| *c == Coord(1, 2)));
        assert!(leaving.carnivore_routes.iter().all(|c| *c == Coord(1, 2)));
        assert_eq!(leaving.herbivores.len(), leaving.herbivore_routes.len());
        assert_eq!(leaving.carnivores.len(), leaving.carnivore_routes.len());
        let marked = cell.herbivores.iter().filter(|h| h.health.has_moved).count();
        assert_eq!(marked, leaving.herbivores.len());
    }
}

#[test]
fn the_newborn_stay_where_they_are() {
    let mut cell = highland_with(vec![Herbivore::new(40_000_000, 5); 2], vec![]);
    cell.procreate_with(&vec![0, 0], &vec![8_000_000, 8_000_000], &vec![], &vec![]);
    let leaving = cell.migrate_with(&vec![0; 4], &vec![Coord(1, 2); 4], &vec![], &vec![]).unwrap();
    assert_eq!(leaving.herbivores.len(), 2);
    assert!(cell.herbivores[0].health.has_moved);
    assert!(cell.herbivores[1].health.has_moved);
    assert!(!cell.herbivores[2].health.has_moved);
    assert!(!cell.herbivores[3].health.has_moved);
    assert!(cell.herbivores.iter().all(|h| !h.health.newborn));
}

#[test]
fn the_dead_are_not_taken_in() {
    let mut dead = Herbivore::new(10_000_000, 0);
    dead.kill();
    let cell = highland_with(vec![dead, Herbivore::new(10_000_000, 0)], vec![]);
    assert_eq!(cell.herb_count(), 1);
}

#[test]
fn mean_age_and_weight_are_in_millionths() {
    let cell = highland_with(
        vec![Herbivore::new(10_000_000, 1), Herbivore::new(10_000_000, 2)],
        vec![Carnivore::new(3_000_000, 4), Carnivore::new(4_000_000, 5), Carnivore::new(6_000_000, 7)],
    );
    assert_eq!(cell.herb_avg_age(), 1_500_000);
    assert_eq!(cell.carn_avg_age(), 5_333_333);
    assert_eq!(cell.carn_avg_weight(), 4_333_333);
    assert_eq!(cell.herb_avg_weight(), 10_000_000);
    let empty = LandCell::new(LandCellType::Desert, Coord(0, 0), vec![]);
    assert_eq!(empty.herb_avg_age(), 0);
    assert_eq!(empty.carn_avg_age(), 0);
    assert_eq!(empty.carn_avg_weight(), 0);
}

#[test]
fn a_year_in_an_empty_cell_only_grows_the_food_back() {
    let mut cell = LandCell::new(LandCellType::Lowland, Coord(0, 0), vec![Coord(0, 1)]);
    cell.fodder = 5;
    let mut rng = seeded_source(3);
    let report = cell.live_year(&mut rng, &vec![], &vec![]);
    assert_eq!(cell.fodder, 700_000_000);
    assert_eq!(report.killed, 0);
    assert_eq!(report.born.total(), 0);
    assert_eq!(report.died.total(), 0);
    assert!(report.leaving.is_none());
}

#[test]
fn a_year_in_a_cell_accounts_for_everyone() {
    for seed in 0..10u64 {
        let mut cell = highland_with(vec![Herbivore::new(35_000_000, 5); 60], vec![Carnivore::new(30_000_000, 5); 10]);
        let mut rng = seeded_source(seed);
        let report = cell.live_year(&mut rng, &vec![8_000_000; 60], &vec![6_000_000; 10]);
        assert!(cell
            .herbivores
            .iter()
            .filter(|h| h.health.age == 0)
            .all(|h| h.health.weight == 8_000_000));
        assert_eq!(
            cell.herb_count() + report.killed + report.died.herbivores,
            60 + report.born.herbivores
        );
        assert_eq!(cell.carn_count() + report.died.carnivores, 10 + report.born.carnivores);
        assert!(cell.fodder <= 300_000_000);
        assert!(cell.herbivores.iter().all(|h| !h.health.newborn && h.is_alive()));
    }
}

#[test]
fn an_arrival_joins_its_species_without_marks() {
    let mut cell = highland_with(vec![Herbivore::new(20_000_000, 5)], vec![]);
    let mut comer = Herbivore::new(30_000_000, 7);
    comer.health.has_moved = true;
    comer.health.newborn = true;
    cell.receive(comer.health, false);
    assert_eq!(cell.herb_count(), 2);
    assert_eq!(cell.carn_count(), 0);
    assert_eq!(cell.herbivores[1].health.weight, 30_000_000);
    assert_eq!(cell.herbivores[1].health.age, 7);
    assert!(!cell.herbivores[1].health.has_moved);
    assert!(!cell.herbivores[1].health.newborn);
    assert!(!cell.herbivores[1].health.fitness_valid);
    cell.receive(Carnivore::new(9_000_000, 2).health, true);
    assert_eq!(cell.herb_count(), 2);
    assert_eq!(cell.carn_count(), 1);
    assert_eq!(cell.carnivores[0].health.weight, 9_000_000);
}
