use biosim::animal::Carnivore;
use biosim::animal::Herbivore;
use biosim::biosim::BioSim;
use biosim::biosim::SimResult;
use biosim::biosim::SimYear;
use biosim::landscape::AnimalList;
use biosim::landscape::Coord;
use biosim::landscape::LandCellType;
use biosim::util::seeded_source;
use biosim::util::find_neighbors;
use biosim::util::landscape_from_repr;
use biosim::util::try_landscape_from_repr;
use biosim::util::landscape_repr_from_string;
use biosim::util::random_float;
use biosim::chart::split_rows;
use biosim::util::standard_deviate;
use biosim::chart::ConfigError;

fn herbivores(n: usize) -> AnimalList {
    AnimalList { herbivores: vec![Herbivore::new(35_000_000, 5); n], carnivores: vec![] }
}

fn state_of(sim: &BioSim) -> Vec<(Coord, u64, Vec<(u32, u64)>, Vec<(u32, u64)>)> {
    sim.landscape
        .iter()
        .map(|c| {
            (
                c.location,
                c.fodder,
                c.herbivores.iter().map(|h| (h.health.age, h.health.weight)).collect(),
                c.carnivores.iter().map(|h| (h.health.age, h.health.weight)).collect(),
            )
        })
        .collect()
}

#[test]
fn draws_are_fractions_of_one() {
    let mut rng = seeded_source(11);
    for _ in 0..1000 {
        assert!(random_float(&mut rng) < 1_000_000);
    }
}

#[test]
fn draws_differ_from_each_other() {
    let mut rng = seeded_source(11);
    let a = random_float(&mut rng);
    let mut differs = false;
    for _ in 0..20 {
        if random_float(&mut rng) != a {
            differs = true;
        }
    }
    assert!(differs);
}

#[test]
fn deviates_lie_within_six_and_centre_on_zero() {
    let mut rng = seeded_source(5);
    let mut sum: i64 = 0;
    for _ in 0..2000 {
        let z = standard_deviate(&mut rng);
        assert!(z >= -6_000_000 && z < 6_000_000);
        sum += z;
    }
    let mean = sum / 2000;
    assert!(mean.abs() < 200_000, "{}", mean);
}

#[test]
fn a_text_splits_at_its_row_ends() {
    assert_eq!(split_rows(b"WW\nLH"), vec![b"WW".to_vec(), b"LH".to_vec()]);
    assert_eq!(split_rows(b""), vec![Vec::<u8>::new()]);
    assert_eq!(split_rows(b"W\n"), vec![b"W".to_vec(), Vec::new()]);
    assert_eq!(split_rows(b"\n\n"), vec![Vec::<u8>::new(), Vec::new(), Vec::new()]);
}

#[test]
fn landscape_repr_from_string_places_every_token() {
    let repr = landscape_repr_from_string(String::from("WL\nHD"));
    assert_eq!(
        repr,
        vec![(Coord(0, 0), b'W'), (Coord(0, 1), b'L'), (Coord(1, 0), b'H'), (Coord(1, 1), b'D')]
    );
    assert!(landscape_repr_from_string(String::new()).is_empty());
}

#[test]
fn find_neighbors_leaves_out_water_and_the_edge() {
    let repr = landscape_repr_from_string(String::from("WLW\nLLH\nWDW"));
    assert_eq!(
        find_neighbors(Coord(1, 1), &repr),
        vec![Coord(1, 2), Coord(1, 0), Coord(2, 1), Coord(0, 1)]
    );
    assert_eq!(find_neighbors(Coord(0, 1), &repr), vec![Coord(1, 1)]);
    assert_eq!(find_neighbors(Coord(1, 0), &repr), vec![Coord(1, 1)]);
    assert_eq!(find_neighbors(Coord(0, 0), &repr), vec![Coord(0, 1), Coord(1, 0)]);
    assert!(find_neighbors(Coord(9, 9), &repr).is_empty());
    assert!(find_neighbors(Coord(u32::MAX, u32::MAX), &repr).is_empty());
}

#[test]
fn landscape_from_repr_builds_the_habitable_cells() {
    let repr = landscape_repr_from_string(String::from("WLW\nLHD"));
    let cells = landscape_from_repr(repr);
    assert_eq!(cells.len(), 4);
    assert_eq!(cells[0].location, Coord(0, 1));
    assert_eq!(cells[0].cell_type, LandCellType::Lowland);
    assert_eq!(cells[0].fodder, 700_000_000);
    assert_eq!(cells[0].land_cell_neighbors, vec![Coord(1, 1)]);
    assert_eq!(cells[2].location, Coord(1, 1));
    assert_eq!(cells[2].cell_type, LandCellType::Highland);
    assert_eq!(cells[2].land_cell_neighbors, vec![Coord(1, 2), Coord(1, 0), Coord(0, 1)]);
    assert_eq!(cells[3].cell_type, LandCellType::Desert);
    assert_eq!(cells[3].fodder, 0);
}

#[test]
fn landscape_from_repr_turns_down_what_is_no_token() {
    let repr = landscape_repr_from_string(String::from("WLX\nLQD"));
    assert_eq!(try_landscape_from_repr(repr).err(), Some(ConfigError::UnknownToken(b'X')));
}

#[test]
fn a_map_needs_no_water_around_it() {
    let sim = BioSim::new(String::from("LL\nLL"), 1);
    assert_eq!(sim.landscape.len(), 4);
    assert_eq!(sim.landscape[0].land_cell_neighbors, vec![Coord(0, 1), Coord(1, 0)]);
    assert_eq!(sim.landscape[3].land_cell_neighbors, vec![Coord(1, 0), Coord(0, 1)]);
}

#[test]
fn a_ragged_map_is_turned_down() {
    assert_eq!(BioSim::try_new(String::from("WWW\nWL"), 1).err(), Some(ConfigError::RaggedRows));
    assert_eq!(BioSim::try_new(String::from("WWW\nWLW\n"), 1).err(), Some(ConfigError::RaggedRows));
}

#[test]
fn a_map_with_an_unknown_token_is_turned_down() {
    assert_eq!(BioSim::try_new(String::from("WWW\nWxW"), 1).err(), Some(ConfigError::UnknownToken(b'x')));
    assert_eq!(BioSim::try_new(String::from("W\u{e9}"), 1).err(), Some(ConfigError::UnknownToken(0xc3)));
}

#[test]
fn animals_cannot_be_placed_on_water_or_off_the_map() {
    let mut sim = BioSim::new(String::from("WWW\nWLW\nWWW"), 1);
    assert_eq!(sim.try_add_animals(vec![(Coord(0, 0), herbivores(3))]),
        Err(ConfigError::UnknownLocation(Coord(0, 0)))
    );
    assert_eq!(sim.try_add_animals(vec![(Coord(1, 1), herbivores(3)), (Coord(7, 7), herbivores(3))]),
        Err(ConfigError::UnknownLocation(Coord(7, 7)))
    );
    // nothing was placed
    assert_eq!(sim.get_num_animals(), 0);
    assert_eq!(sim.landscape[0].herb_count(), 0);
}

#[test]
fn placed_animals_are_counted() {
    let mut sim = BioSim::new(String::from("WWWW\nWLHW\nWWWW"), 1);
    let list = AnimalList {
        herbivores: vec![Herbivore::new(35_000_000, 5); 7],
        carnivores: vec![Carnivore::new(20_000_000, 5); 2],
    };
    assert_eq!(sim.try_add_animals(vec![(Coord(1, 2), list), (Coord(1, 1), herbivores(4))]), Ok(()));
    assert_eq!(sim.get_num_herbs(), 11);
    assert_eq!(sim.get_num_carns(), 2);
    assert_eq!(sim.get_num_animals(), 13);
    assert_eq!(sim.get_animal_count().total(), 13);
    assert_eq!(sim.herb_pop_matrix(), vec![(Coord(1, 1), 4), (Coord(1, 2), 7)]);
    assert_eq!(sim.carn_pop_matrix(), vec![(Coord(1, 1), 0), (Coord(1, 2), 2)]);
    assert_eq!(sim.find_cell(Coord(1, 2)), Some(1));
    assert_eq!(sim.find_cell(Coord(0, 0)), None);
    assert_eq!(sim.herb_avg_age(), 5_000_000);
    assert_eq!(sim.carn_avg_age(), 2_500_000);
    assert_eq!(sim.carn_avg_weight(), 10_000_000);
    assert_eq!(sim.herb_avg_weight(), 35_000_000);
    let shot = sim.snapshot(3);
    assert_eq!(shot, SimYear { year: 3, num_herbs: 11, num_carns: 2 });
    let mut result = SimResult { res: Vec::new() };
    result.res.push(shot);
    assert_eq!(result.res.len(), 1);
}

#[test]
fn a_year_accounts_for_every_animal_on_the_grid() {
    let mut sim = BioSim::new(String::from("WWWWW\nWLLLW\nWLHLW\nWWWWW"), 42);
    let list = AnimalList {
        herbivores: vec![Herbivore::new(35_000_000, 5); 80],
        carnivores: vec![Carnivore::new(30_000_000, 5); 15],
    };
    sim.add_animals(vec![(Coord(2, 2), list)]);
    for _ in 0..30 {
        let herbs = sim.get_num_herbs();
        let carns = sim.get_num_carns();
        let tally = sim.run_year_cycle();
        assert_eq!(sim.get_num_herbs() + tally.killed + tally.died.herbivores, herbs + tally.born.herbivores);
        assert_eq!(sim.get_num_carns() + tally.died.carnivores, carns + tally.born.carnivores);
        let in_cells: u32 = sim.landscape.iter().map(|c| c.herb_count() + c.carn_count()).sum();
        assert_eq!(in_cells, sim.get_num_animals());
        for cell in sim.landscape.iter() {
            assert!(cell.fodder <= cell.max_fodder);
            assert!(cell.herbivores.iter().all(|h| !h.health.has_moved && !h.health.newborn));
            assert!(cell.carnivores.iter().all(|h| !h.health.has_moved && !h.health.newborn));
        }
    }
}

#[test]
fn migration_alone_keeps_the_number_of_animals() {
    let mut sim = BioSim::new(String::from("LLL"), 9);
    sim.add_animals(vec![(Coord(0, 1), herbivores(200))]);
    let (tally, stage) = sim.stage_year(&vec![8_000_000; 200], &vec![]);
    let after_phases: u32 = sim.landscape.iter().map(|c| c.herb_count()).sum();
    assert_eq!(after_phases + tally.died.herbivores, 200 + tally.born.herbivores);
    sim.depart(&stage);
    sim.arrive(&stage);
    let after_moves: u32 = sim.landscape.iter().map(|c| c.herb_count()).sum();
    assert_eq!(after_moves, after_phases);
}

#[test]
fn from_the_middle_of_a_line_animals_reach_both_ends_and_nowhere_else() {
    let mut sim = BioSim::new(String::from("WWWWW\nWLLLW\nWWWWW"), 3);
    assert_eq!(sim.landscape[0].land_cell_neighbors, vec![Coord(1, 2)]);
    assert_eq!(sim.landscape[1].land_cell_neighbors, vec![Coord(1, 3), Coord(1, 1)]);
    assert_eq!(sim.landscape[2].land_cell_neighbors, vec![Coord(1, 2)]);
    sim.add_animals(vec![(Coord(1, 2), herbivores(300))]);
    let (_, stage) = sim.stage_year(&vec![8_000_000; 300], &vec![]);
    let from_middle = stage[1].as_ref().unwrap();
    assert!(!from_middle.herbivores.is_empty());
    assert!(from_middle.herbivore_routes.iter().all(|c| *c == Coord(1, 1) || *c == Coord(1, 3)));
    assert!(from_middle.herbivore_routes.iter().any(|c| *c == Coord(1, 1)));
    assert!(from_middle.herbivore_routes.iter().any(|c| *c == Coord(1, 3)));
    let leaving = from_middle.herbivores.len() as u32;
    let to_west = from_middle.herbivore_routes.iter().filter(|c| **c == Coord(1, 1)).count() as u32;
    let in_middle = sim.landscape[1].herb_count();
    sim.depart(&stage);
    assert_eq!(sim.landscape[1].herb_count() + leaving, in_middle);
    sim.arrive(&stage);
    assert_eq!(sim.landscape[0].herb_count(), to_west);
    assert_eq!(sim.landscape[2].herb_count(), leaving - to_west);
}

#[test]
fn from_the_end_of_a_line_everyone_who_leaves_goes_to_the_one_neighbour() {
    let mut sim = BioSim::new(String::from("WWWWW\nWLLLW\nWWWWW"), 4);
    sim.add_animals(vec![(Coord(1, 1), herbivores(300))]);
    let (_, stage) = sim.stage_year(&vec![8_000_000; 300], &vec![]);
    let from_end = stage[0].as_ref().unwrap();
    assert!(!from_end.herbivores.is_empty());
    assert!(from_end.herbivore_routes.iter().all(|c| *c == Coord(1, 2)));
    sim.depart(&stage);
    sim.arrive(&stage);
    assert_eq!(sim.landscape[1].herb_count() as usize, from_end.herbivores.len());
    assert_eq!(sim.landscape[2].herb_count(), 0);
}

#[test]
fn the_same_seed_gives_the_same_years() {
    let map = "WWWWW\nWLLHW\nWLDLW\nWWWWW";
    let mut a = BioSim::new(String::from(map), 77);
    let mut b = BioSim::new(String::from(map), 77);
    for sim in [&mut a, &mut b] {
        let list = AnimalList {
            herbivores: vec![Herbivore::new(35_000_000, 5); 60],
            carnivores: vec![Carnivore::new(30_000_000, 5); 12],
        };
        sim.add_animals(vec![(Coord(1, 1), list)]);
    }
    for _ in 0..15 {
        a.run_year_cycle();
        b.run_year_cycle();
        assert_eq!(state_of(&a), state_of(&b));
    }
}

#[test]
fn another_seed_gives_other_years() {
    let map = "WWWWW\nWLLHW\nWLDLW\nWWWWW";
    let mut a = BioSim::new(String::from(map), 77);
    let mut b = BioSim::new(String::from(map), 78);
    for sim in [&mut a, &mut b] {
        sim.add_animals(vec![(Coord(1, 1), herbivores(100))]);
    }
    for _ in 0..5 {
        a.run_year_cycle();
        b.run_year_cycle();
    }
    assert_ne!(state_of(&a), state_of(&b));
}

#[test]
fn food_grows_back_on_an_empty_cell() {
    let mut sim = BioSim::new(String::from("LH"), 1);
    sim.landscape[0].fodder = 0;
    sim.landscape[1].fodder = 1;
    sim.run_year_cycle();
    assert_eq!(sim.landscape[0].fodder, 700_000_000);
    assert_eq!(sim.landscape[1].fodder, 300_000_000);
}

#[test]
fn resolving_the_migrations_keeps_everyone() {
    for seed in 0..8u64 {
        let mut sim = BioSim::new(String::from("LLL\nLHL\nLLL"), seed);
        let list = AnimalList {
            herbivores: vec![Herbivore::new(35_000_000, 5); 120],
            carnivores: vec![Carnivore::new(30_000_000, 5); 30],
        };
        sim.add_animals(vec![(Coord(1, 1), list)]);
        let (_, stage) = sim.stage_year(&vec![8_000_000; 120], &vec![6_000_000; 30]);
        let herbs: u32 = sim.landscape.iter().map(|c| c.herb_count()).sum();
        let carns: u32 = sim.landscape.iter().map(|c| c.carn_count()).sum();
        sim.resolve(&stage);
        assert_eq!(sim.landscape.iter().map(|c| c.herb_count()).sum::<u32>(), herbs);
        assert_eq!(sim.landscape.iter().map(|c| c.carn_count()).sum::<u32>(), carns);
        assert_eq!(sim.census().herbivores, herbs);
        assert_eq!(sim.census().carnivores, carns);
    }
}

#[test]
fn too_many_animals_are_turned_down() {
    let mut sim = BioSim::new(String::from("L"), 1);
    // so many animals cannot be made here: the count is set by hand
    sim.animal_count.herbivores = u32::MAX - 1;
    assert_eq!(sim.try_add_animals(vec![(Coord(0, 0), herbivores(2))]), Err(ConfigError::TooManyAnimals));
    assert_eq!(sim.landscape[0].herb_count(), 0);
}

#[test]
fn given_birth_weights_are_dealt_out_cell_by_cell() {
    let mut sim = BioSim::new(String::from("LL"), 5);
    sim.add_animals(vec![(Coord(0, 0), herbivores(40)), (Coord(0, 1), herbivores(60))]);
    let mut weights = vec![7_000_000u64; 40];
    weights.extend(vec![9_000_000u64; 60]);
    let (tally, _) = sim.stage_year(&weights, &vec![]);
    assert!(tally.born.herbivores > 0);
    let born_in = |i: usize| -> Vec<u64> {
        sim.landscape[i].herbivores.iter().filter(|h| h.health.age == 0).map(|h| h.health.weight).collect()
    };
    assert!(!born_in(0).is_empty());
    assert!(!born_in(1).is_empty());
    assert!(born_in(0).iter().all(|w| *w == 7_000_000));
    assert!(born_in(1).iter().all(|w| *w == 9_000_000));
}

#[test]
fn a_year_with_given_birth_weights_accounts_for_everyone() {
    let mut sim = BioSim::new(String::from("WLLW\nWHLW"), 6);
    let list = AnimalList {
        herbivores: vec![Herbivore::new(35_000_000, 5); 70],
        carnivores: vec![Carnivore::new(30_000_000, 5); 9],
    };
    sim.add_animals(vec![(Coord(1, 1), list)]);
    for _ in 0..10 {
        let herbs = sim.get_num_herbs();
        let carns = sim.get_num_carns();
        let tally = sim.run_year_cycle_with(&vec![8_000_000; herbs as usize], &vec![6_000_000; carns as usize]);
        assert_eq!(sim.get_num_herbs() + tally.killed + tally.died.herbivores, herbs + tally.born.herbivores);
        assert_eq!(sim.get_num_carns() + tally.died.carnivores, carns + tally.born.carnivores);
    }
}

#[test]
fn the_same_seed_and_the_same_birth_weights_give_the_same_years() {
    let map = "LLH\nLDL";
    let mut a = BioSim::new(String::from(map), 31);
    let mut b = BioSim::new(String::from(map), 31);
    for sim in [&mut a, &mut b] {
        sim.add_animals(vec![(Coord(0, 1), herbivores(80))]);
    }
    for year in 0..10u64 {
        let n = a.get_num_herbs() as usize;
        let weights: Vec<u64> = (0..n as u64).map(|k| 6_000_000 + (k * 37 + year) % 4_000_000).collect();
        a.run_year_cycle_with(&weights, &vec![]);
        b.run_year_cycle_with(&weights, &vec![]);
        assert_eq!(state_of(&a), state_of(&b));
    }
}

#[test]
fn a_map_that_was_looked_at_can_be_built_without_looking_again() {
    let ok = BioSim::try_new(String::from("WLW\nLHD"), 8);
    assert!(ok.is_ok());
    let sim = BioSim::new(String::from("WLW\nLHD"), 8);
    assert_eq!(state_of(&sim), state_of(&ok.unwrap()));
    assert_eq!(sim.landscape.len(), 4);
}
