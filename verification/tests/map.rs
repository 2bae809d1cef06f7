use biosim::animal::Herbivore;
use biosim::island::map_from_string;
use biosim::island::map_repr_from_string;
use biosim::island::Island;
use biosim::island::IslandTraits;
use biosim::landscape::AnimalList;
use biosim::landscape::Coord;
use biosim::landscape::LandCellType;
use biosim::util::copy_range;
use biosim::util::deviate_of;
use biosim::util::draw_many;
use biosim::util::seeded_source;
use biosim::chart::ConfigError;

#[test]
fn map_repr_from_string_splits_the_text_into_rows_of_tokens() {
    let repr = map_repr_from_string(&String::from("WLW\nHDW"));
    assert_eq!(repr, vec![b"WLW".to_vec(), b"HDW".to_vec()]);
    assert_eq!(map_repr_from_string(&String::new()), vec![Vec::<u8>::new()]);
    assert_eq!(map_repr_from_string(&String::from("L\n\nH")), vec![b"L".to_vec(), vec![], b"H".to_vec()]);
}

#[test]
fn map_from_string_puts_a_cell_on_every_habitable_place() {
    let repr = map_repr_from_string(&String::from("WL\nHD"));
    let grid = map_from_string(&repr).unwrap();
    assert_eq!(grid.len(), 2);
    assert!(grid[0][0].is_none());
    let lowland = grid[0][1].as_ref().unwrap();
    assert_eq!(lowland.cell_type, LandCellType::Lowland);
    assert_eq!(lowland.location, Coord(0, 1));
    assert_eq!(lowland.fodder, 700_000_000);
    assert!(lowland.land_cell_neighbors.is_empty());
    assert_eq!(grid[1][0].as_ref().unwrap().cell_type, LandCellType::Highland);
    assert_eq!(grid[1][1].as_ref().unwrap().cell_type, LandCellType::Desert);
    assert_eq!(grid[1][1].as_ref().unwrap().location, Coord(1, 1));
}

#[test]
fn map_from_string_turns_down_the_first_byte_that_is_no_token() {
    let repr = map_repr_from_string(&String::from("WL\nHz\nyL"));
    assert_eq!(map_from_string(&repr).err(), Some(ConfigError::UnknownToken(b'z')));
}

#[test]
fn an_island_starts_empty() {
    let island = Island::new(String::from("WWW\nWLW\nWWW")).unwrap();
    assert_eq!(island.get_num_animals(), 0);
    assert_eq!(island.get_num_herbs(), 0);
    assert_eq!(island.get_num_carns(), 0);
    assert_eq!(island.get_unique_rows(), vec![0, 1, 2]);
    assert_eq!(island.get_unique_cols(), vec![0, 1, 2]);
    assert_eq!(island.get_land_cells().len(), 1);
    assert_eq!(island.get_land_cells()[0].location, Coord(1, 1));
    assert_eq!(Island::new(String::from("WW\nW?")).err(), Some(ConfigError::UnknownToken(b'?')));
}

#[test]
fn an_island_counts_animals_in_and_out() {
    let mut island = Island::new(String::from("LL")).unwrap();
    island.add_animals(5, 3);
    assert_eq!(island.get_num_herbs(), 5);
    assert_eq!(island.get_num_carns(), 3);
    assert_eq!(island.get_num_animals(), 8);
    island.del_animals(2, 3);
    assert_eq!(island.get_num_herbs(), 3);
    assert_eq!(island.get_num_carns(), 0);
    assert_eq!(island.get_num_animals(), 3);
}

#[test]
fn set_neighbors_names_the_habitable_places_around_each_cell() {
    let mut island = Island::new(String::from("LLW\nLHD\nWLL")).unwrap();
    island.set_neighbors();
    let at = |x: usize, y: usize| island.landscape[x][y].as_ref().unwrap().land_cell_neighbors.clone();
    assert_eq!(at(1, 1), vec![Coord(1, 2), Coord(1, 0), Coord(2, 1), Coord(0, 1)]);
    assert_eq!(at(0, 0), vec![Coord(0, 1), Coord(1, 0)]);
    assert_eq!(at(0, 1), vec![Coord(0, 0), Coord(1, 1)]);
    assert_eq!(at(2, 2), vec![Coord(2, 1), Coord(1, 2)]);
    assert!(island.landscape[0][2].is_none());
    let cells = island.get_land_cells();
    let places: Vec<Coord> = cells.iter().map(|c| c.location).collect();
    assert_eq!(
        places,
        vec![Coord(0, 0), Coord(0, 1), Coord(1, 0), Coord(1, 1), Coord(1, 2), Coord(2, 1), Coord(2, 2)]
    );
}

#[test]
fn set_neighbors_copes_with_rows_of_different_length() {
    let mut island = Island::new(String::from("L\nLLL\nLL")).unwrap();
    island.set_neighbors();
    let at = |x: usize, y: usize| island.landscape[x][y].as_ref().unwrap().land_cell_neighbors.clone();
    assert_eq!(at(1, 2), vec![Coord(1, 1)]);
    assert_eq!(at(1, 1), vec![Coord(1, 2), Coord(1, 0), Coord(2, 1)]);
    assert_eq!(at(0, 0), vec![Coord(1, 0)]);
}

#[test]
fn update_pop_matrix_counts_the_animals_at_each_place() {
    let mut island = Island::new(String::from("WL\nHW")).unwrap();
    island.landscape[0][1].as_mut().unwrap().add_animals(AnimalList {
        herbivores: vec![Herbivore::new(10_000_000, 1); 4],
        carnivores: vec![],
    });
    island.update_pop_matrix();
    assert_eq!(island.herb_pop_matrix, vec![vec![0, 4], vec![0, 0]]);
    assert_eq!(island.carn_pop_matrix, vec![vec![0, 0], vec![0, 0]]);
}

#[test]
fn twelve_draws_make_a_deviate() {
    assert_eq!(deviate_of(&vec![500_000; 12]), 0);
    assert_eq!(deviate_of(&vec![0; 12]), -6_000_000);
    assert_eq!(deviate_of(&vec![999_999; 12]), 5_999_988);
    assert_eq!(deviate_of(&vec![1, 2, 3, 4, 5, 6, 7, 8, 9, 10, 11, 12]), 78 - 6_000_000);
}

#[test]
fn draw_many_gives_as_many_draws_as_asked_for() {
    let mut rng = seeded_source(2);
    let draws = draw_many(&mut rng, 50);
    assert_eq!(draws.len(), 50);
    assert!(draws.iter().all(|d| *d < 1_000_000));
    assert!(draw_many(&mut rng, 0).is_empty());
}

#[test]
fn a_range_is_copied_out() {
    let items: Vec<u64> = vec![10, 11, 12, 13, 14];
    assert_eq!(copy_range(&items, 1, 3), vec![11, 12, 13]);
    assert_eq!(copy_range(&items, 0, 5), items);
    assert!(copy_range(&items, 5, 0).is_empty());
}
