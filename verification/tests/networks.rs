use bioengineer::world::networks::network::{
    is_adjacent, material_composition, neighbours, storage_capacity, Addition, Network, Node,
    Replacement, MATERIAL_NEEDED_FOR_A_MACHINE, MAX_STORAGE_PER_MACHINE, MAX_STORAGE_PER_SPACESHIP,
    MAX_STORAGE_PER_STORAGE_MACHINE, SPACESHIP_INITIAL_STORAGE, WALL_WEIGHT,
};
use bioengineer::world::networks::Networks;
use bioengineer::world::world_map::transform_cells::TransformationFailure;
use bioengineer::world::world_map::cell::TileType;
use bioengineer::world::world_map::cell::TileType::{
    Air, MachineAirCleaner, MachineAssembler, MachineDrill, MachineShip, MachineSolarPanel,
    MachineStorage, WallRock, Wire,
};
use bioengineer::world::world_map::cell_index::CellIndex;

fn new_node(position: CellIndex, tile: TileType) -> Node {
    Node { position, tile }
}

fn network_of(nodes: Vec<Node>, stored_resources: i64) -> Network {
    Network { nodes, stored_resources }
}

#[test]
fn test_connected() {
    let mut network = Network::new();
    assert_eq!(network.is_connected(), true);
    network.add(new_node(CellIndex::new(0, 0, 0), MachineAirCleaner));
    assert_eq!(network.is_connected(), true);
    network.add(new_node(CellIndex::new(0, 0, 2), MachineAirCleaner));
    assert_eq!(network.is_connected(), false);
    network.add(new_node(CellIndex::new(0, 0, 1), MachineAirCleaner));
    assert_eq!(network.is_connected(), true);
}

#[test]
fn test_is_adjacent() {
    let mut network = Network::new();
    let adjacent = CellIndex::new(0, 0, 0);
    let position = CellIndex::new(0, 0, 1);
    assert_eq!(network.is_adjacent(adjacent), false);
    network.add(new_node(position, MachineDrill));
    assert_eq!(network.is_adjacent(adjacent), true);
}

#[test]
fn nodes_on_the_same_cell_are_not_one_network() {
    let network = network_of(
        vec![
            new_node(CellIndex::new(0, 0, 0), MachineDrill),
            new_node(CellIndex::new(0, 0, 0), MachineDrill),
        ],
        0,
    );
    assert_eq!(network.is_connected(), false);
}

#[test]
fn a_star_of_seven_nodes_is_connected() {
    let center = CellIndex::new(5, 5, 5);
    let mut network = network_of(vec![new_node(center, MachineDrill)], 0);
    for n in neighbours(center) {
        network.add_no_spend(new_node(n, MachineDrill));
    }
    network.add_no_spend(new_node(CellIndex::new(5, 5, 7), MachineDrill));
    assert_eq!(network.is_connected(), true);
    network.add_no_spend(new_node(CellIndex::new(9, 9, 9), MachineDrill));
    assert_eq!(network.is_connected(), false);
}

#[test]
fn adjacency_is_one_step_along_one_axis() {
    assert!(is_adjacent(CellIndex::new(0, 0, 0), CellIndex::new(0, -1, 0)));
    assert!(!is_adjacent(CellIndex::new(0, 0, 0), CellIndex::new(1, 1, 0)));
    assert!(!is_adjacent(CellIndex::new(0, 0, 0), CellIndex::new(0, 0, 0)));
    assert!(!is_adjacent(CellIndex::new(i32::MIN, 0, 0), CellIndex::new(i32::MAX, 0, 0)));
}

#[test]
fn finding_nodes() {
    let network = network_of(
        vec![
            new_node(CellIndex::new(0, 0, 0), MachineDrill),
            new_node(CellIndex::new(1, 0, 0), MachineAirCleaner),
            new_node(CellIndex::new(1, 0, 0), MachineDrill),
        ],
        0,
    );
    assert_eq!(network.get_node(CellIndex::new(1, 0, 0)), Some(network.nodes[1]));
    assert_eq!(network.get_node(CellIndex::new(3, 0, 0)), None);
    assert_eq!(network.len(), 3);
}

#[test]
fn amounts_of_each_tile() {
    assert_eq!(material_composition(WallRock), WALL_WEIGHT);
    assert_eq!(material_composition(Air), 0);
    assert_eq!(material_composition(Wire), MATERIAL_NEEDED_FOR_A_MACHINE);
    assert_eq!(material_composition(TileType::TreeHealthy), MATERIAL_NEEDED_FOR_A_MACHINE);
    assert_eq!(storage_capacity(MachineShip), MAX_STORAGE_PER_SPACESHIP);
    assert_eq!(storage_capacity(MachineStorage), MAX_STORAGE_PER_STORAGE_MACHINE);
    assert_eq!(storage_capacity(Wire), MAX_STORAGE_PER_MACHINE);
    assert_eq!(MAX_STORAGE_PER_MACHINE, MAX_STORAGE_PER_SPACESHIP);
    assert_eq!(storage_capacity(WallRock), 0);
}

#[test]
fn capacity_counts_storage_machines_and_ships() {
    let network = network_of(
        vec![
            new_node(CellIndex::new(0, 0, 0), MachineShip),
            new_node(CellIndex::new(0, 0, 1), MachineStorage),
            new_node(CellIndex::new(0, 0, 2), MachineStorage),
            new_node(CellIndex::new(0, 0, 3), Wire),
        ],
        0,
    );
    assert_eq!(network.get_storage_capacity(), 22_000_000);
    assert_eq!(network.get_storage_capacity_str(), "22.0 Mg");
}

#[test]
fn power_and_air_cleaned() {
    let mut network = network_of(
        vec![
            new_node(CellIndex::new(0, 0, 0), MachineSolarPanel),
            new_node(CellIndex::new(0, 0, 1), MachineAirCleaner),
            new_node(CellIndex::new(0, 0, 2), Wire),
        ],
        0,
    );
    assert_eq!(network.get_power_generated_str(), "1.00 KW");
    assert_eq!(network.get_power_required_str(), "1.00 KW");
    assert!(network.is_power_satisfied());
    assert_eq!(network.update().air_cleaned, 1);
    assert_eq!(network.get_air_cleaned_speed_str(), "1.00 L/s");
    network.add_no_spend(new_node(CellIndex::new(0, 0, 3), MachineDrill));
    assert!(!network.is_power_satisfied());
    assert_eq!(network.update().air_cleaned, 0);
}

#[test]
fn resources_beyond_the_capacity_overflow() {
    let mut network = network_of(vec![new_node(CellIndex::new(0, 0, 0), MachineShip)], 0);
    assert_eq!(network.try_add_resources(400_000), 0);
    assert_eq!(network.get_stored_resources(), 400_000);
    assert_eq!(network.try_add_resources(700_000), 100_000);
    assert_eq!(network.get_stored_resources(), MAX_STORAGE_PER_SPACESHIP);
    assert_eq!(network.get_stored_resources_str(), "1.00 Mg");
}

#[test]
fn adding_spends_material_unless_refused() {
    let ship = new_node(CellIndex::new(0, 0, 0), MachineShip);
    let mut network = network_of(vec![ship], SPACESHIP_INITIAL_STORAGE);
    let wire = new_node(CellIndex::new(0, 0, 1), Wire);
    assert_eq!(network.try_add(wire, Air), Addition::Added);
    assert_eq!(network.get_stored_resources(), 400_000);
    assert_eq!(network.len(), 2);
    let wall = new_node(CellIndex::new(0, 0, 2), WallRock);
    assert_eq!(network.try_add(wall, Air), Addition::NotEnoughMaterial);
    let drill = new_node(CellIndex::new(0, 0, 2), MachineDrill);
    assert_eq!(network.try_add(drill, WallRock), Addition::NotEnoughStorage);
    assert_eq!(network.get_stored_resources(), 400_000);
    assert_eq!(network.len(), 2);
    network.add_or_panic(new_node(CellIndex::new(0, 0, 2), MachineStorage), WallRock);
    assert_eq!(network.get_stored_resources(), 400_000 + WALL_WEIGHT - 100_000);
    assert_eq!(network.len(), 3);
}

#[test]
fn predicting_a_replacement() {
    let network = network_of(vec![new_node(CellIndex::new(0, 0, 0), MachineShip)], 50);
    assert_eq!(
        Network::predict_storage(MachineStorage, WallRock, &network),
        (WALL_WEIGHT, 100_000, 50 + WALL_WEIGHT - 100_000, 11_000_000)
    );
}

#[test]
fn replacing_and_removing_machines() {
    let mut network = network_of(
        vec![
            new_node(CellIndex::new(0, 0, 0), MachineShip),
            new_node(CellIndex::new(0, 0, 1), MachineAssembler),
            new_node(CellIndex::new(0, 0, 2), MachineAssembler),
        ],
        300_000,
    );
    assert_eq!(network.replace_if_present(CellIndex::new(0, 0, 0), Air), Replacement::Forbidden);
    assert_eq!(network.replace_if_present(CellIndex::new(5, 0, 0), Air), Replacement::NotPresent);
    assert_eq!(network.replace_if_present(CellIndex::new(0, 0, 1), MachineDrill), Replacement::Regular);
    assert_eq!(network.nodes[1], new_node(CellIndex::new(0, 0, 1), MachineDrill));
    assert_eq!(network.get_stored_resources(), 300_000);
    assert_eq!(network.replace_if_present(CellIndex::new(0, 0, 1), Air), Replacement::SplitNetwork);
    assert_eq!(
        network.nodes,
        vec![
            new_node(CellIndex::new(0, 0, 0), MachineShip),
            new_node(CellIndex::new(0, 0, 2), MachineAssembler),
            new_node(CellIndex::new(0, 0, 1), MachineDrill),
        ]
    );
    assert_eq!(network.get_stored_resources(), 300_000);
    assert_eq!(network.replace_if_present(CellIndex::new(0, 0, 2), Air), Replacement::Regular);
    assert_eq!(network.get_stored_resources(), 400_000);
    assert_eq!(network.replace_if_present(CellIndex::new(0, 0, 1), WallRock), Replacement::NotEnoughMaterial);
    assert_eq!(network.len(), 2);
}

#[test]
fn building_then_removing_on_empty_ground_restores_the_network() {
    let mut network = network_of(vec![new_node(CellIndex::new(0, 0, 0), MachineShip)], 500_000);
    let before = network.nodes.clone();
    assert_eq!(network.try_add(new_node(CellIndex::new(1, 0, 0), Wire), Air), Addition::Added);
    assert_eq!(network.replace_if_present(CellIndex::new(1, 0, 0), Air), Replacement::Regular);
    assert_eq!(network.nodes, before);
    assert_eq!(network.get_stored_resources(), 500_000);
}

#[test]
fn joining_takes_the_nodes_but_not_the_store() {
    let mut network = network_of(vec![new_node(CellIndex::new(0, 0, 0), MachineShip)], 7);
    let other = network_of(
        vec![new_node(CellIndex::new(0, 0, 1), Wire), new_node(CellIndex::new(0, 0, 2), WallRock)],
        1_000,
    );
    network.join(other);
    assert_eq!(network.len(), 2);
    assert_eq!(network.nodes[1], new_node(CellIndex::new(0, 0, 1), Wire));
    assert_eq!(network.get_stored_resources(), 7);
    assert_eq!(Network::default().len(), 0);
    assert_eq!(Network::new_with_storage(5).get_stored_resources(), 5);
}

fn shifted(a: CellIndex, x: i32, y: i32, z: i32) -> CellIndex {
    CellIndex::new(a.x + x, a.y + y, a.z + z)
}

#[test]
fn test_join_networks() {
    let mut networks = Networks::new_default();
    networks.add(CellIndex::new(0, 0, 10), MachineAssembler, Air);
    networks.add(CellIndex::new(0, 0, 12), MachineAssembler, Air);
    assert_eq!(networks.len(), 3);
    networks.add(CellIndex::new(0, 0, 11), MachineAssembler, Air);
    assert_eq!(networks.len(), 2);
    assert_eq!(networks.unconnected_networks.get(0).unwrap().nodes.len(), 3);
}

#[test]
fn test_append_to_network() {
    let mut networks = Networks::new_default();
    networks.add(CellIndex::new(0, 0, 0), MachineAssembler, Air);
    networks.add(CellIndex::new(0, 0, 1), MachineAssembler, Air);
    assert_eq!(networks.len(), 1);
}

#[test]
fn test_replace_machine() {
    let mut networks = Networks::new_default();
    assert_eq!(networks.add(CellIndex::new(0, 0, 1), MachineAssembler, Air), true);
    assert_eq!(networks.add(CellIndex::new(0, 0, 1), MachineDrill, Air), true);
    assert_eq!(networks.len(), 1);
    assert_eq!(networks.get_non_ship_machine_count(), 1);
    assert_eq!(networks.ship_network.nodes.last().unwrap().tile, MachineDrill);
}

#[test]
fn test_destroy_machine() {
    let mut networks = Networks::new_default();
    assert_eq!(networks.add(CellIndex::new(0, 0, 1), MachineAssembler, Air), true);
    assert_eq!(networks.add(CellIndex::new(0, 0, 2), MachineAssembler, Air), true);
    assert_eq!(
        networks.replace_if_present(CellIndex::new(0, 0, 1), Air),
        Replacement::SplitNetwork
    );
    assert_eq!(networks.len(), 2);
    assert_eq!(networks.unconnected_networks.get(0).unwrap().nodes.len(), 1);
    networks.add(CellIndex::new(0, 0, 1), MachineAssembler, Air);
    networks.replace_if_present(CellIndex::new(0, 0, 2), Air);
    networks.replace_if_present(CellIndex::new(0, 0, 1), Air);
    assert_eq!(networks.len(), 1);
    assert_eq!(networks.get_non_ship_machine_count(), 0);
}

#[test]
fn test_split_network() {
    let mut networks = Networks::new_default();
    assert_eq!(networks.add(CellIndex::new(0, 0, 10), MachineStorage, WallRock), true);
    assert_eq!(networks.add(CellIndex::new(0, 0, 11), MachineAssembler, Air), true);
    assert_eq!(networks.add(CellIndex::new(0, 0, 12), MachineAssembler, Air), true);
    assert_eq!(networks.len(), 2);
    assert_eq!(networks.get_non_ship_machine_count(), 3);
    assert_eq!(networks.add(CellIndex::new(0, 0, 11), TileType::Air, Air), true);
    assert_eq!(networks.len(), 3);
}

#[test]
fn test_air_cleaned_is_kept_when_spliting_network() {
    let expected_air_cleaned = 1;
    let mut networks = Networks::new_default();
    let ship = networks.ship_position;
    networks.add(shifted(ship, 1, 0, 0), MachineSolarPanel, Air);
    networks.add(shifted(ship, 1, 1, 0), MachineAirCleaner, Air);
    networks.update();
    assert_eq!(networks.get_total_air_cleaned(), expected_air_cleaned);
    networks.add(shifted(ship, 1, 0, 2), MachineAssembler, Air);
    assert_eq!(networks.get_total_air_cleaned(), expected_air_cleaned);
    networks.add(shifted(ship, 1, 0, 1), MachineAssembler, Air);
    assert_eq!(networks.get_total_air_cleaned(), expected_air_cleaned);
    networks.add(shifted(ship, 1, 0, 1), TileType::WallRock, Air);
    assert_eq!(networks.get_total_air_cleaned(), expected_air_cleaned);
}

#[test]
fn test_initial_storage_capacity() {
    let networks = Networks::new(CellIndex::new(0, 0, 0));
    assert_eq!(networks.get_stored_resources(), SPACESHIP_INITIAL_STORAGE);
    assert_eq!(networks.get_storage_capacity(), MAX_STORAGE_PER_MACHINE);
}

#[test]
fn test_can_not_add_machine_without_resources() {
    let mut networks = Networks::new(CellIndex::new(0, 0, 0));
    assert_eq!(networks.add(CellIndex::new(0, 0, 1), Wire, Air), true);
    assert_eq!(networks.add(CellIndex::new(0, 0, 2), Wire, Air), true);
    assert_eq!(networks.add(CellIndex::new(0, 0, 3), Wire, Air), true);
    assert_eq!(networks.add(CellIndex::new(0, 0, 4), Wire, Air), true);
    assert_eq!(networks.add(CellIndex::new(0, 0, 5), Wire, Air), true);
    assert_eq!(networks.add(CellIndex::new(0, 0, 6), Wire, Air), false);
}

#[test]
fn test_can_not_add_machine_without_storage_capacity() {
    let mut networks = Networks::new(CellIndex::new(0, 0, 0));
    assert_eq!(networks.add(CellIndex::new(0, 0, 1), Wire, WallRock), false);
}

#[test]
fn test_can_not_add_machine_if_that_makes_storage_capacity_insufficient() {
    let mut networks = Networks::new(CellIndex::new(0, 0, 0));
    assert_eq!(networks.add(CellIndex::new(0, 0, 1), MachineStorage, WallRock), true);
    assert_eq!(networks.add(CellIndex::new(0, 0, 1), Wire, WallRock), false);
}

#[test]
fn test_adding_storage_without_capacity_is_allowed() {
    let mut networks = Networks::new(CellIndex::new(0, 0, 0));
    assert_eq!(networks.add(CellIndex::new(0, 0, 1), MachineStorage, WallRock), true);
}

#[test]
fn test_remove_machine_gives_resources_back() {
    let mut networks = Networks::new(CellIndex::new(0, 0, 0));
    let material_before_constructing = networks.get_stored_resources();
    assert_eq!(networks.add(CellIndex::new(0, 0, 1), Wire, Air), true);
    assert_ne!(networks.get_stored_resources(), material_before_constructing);
    assert_eq!(networks.add(CellIndex::new(0, 0, 1), Air, Wire), true);
    assert_eq!(networks.get_stored_resources(), material_before_constructing);
}

#[test]
fn test_convert_wall_and_air_to_storage() {
    let mut networks = Networks::new(CellIndex::new(0, 0, 0));
    assert_eq!(networks.add(CellIndex::new(0, 0, 1), MachineStorage, Air), true);
    let material_before_constructing = networks.get_stored_resources();
    assert_eq!(networks.add(CellIndex::new(0, 0, 2), MachineStorage, WallRock), true);
    assert_eq!(
        networks.get_stored_resources(),
        material_before_constructing + WALL_WEIGHT - MATERIAL_NEEDED_FOR_A_MACHINE
    );
    let material_before_constructing = networks.get_stored_resources();
    assert_eq!(networks.add(CellIndex::new(0, 0, 3), MachineStorage, Air), true);
    assert_eq!(
        networks.get_stored_resources(),
        material_before_constructing - MATERIAL_NEEDED_FOR_A_MACHINE
    );
}

#[test]
fn test_build_wall_without_enough_material() {
    let mut networks = Networks::new(CellIndex::new(0, 0, 0));
    assert_eq!(networks.add(CellIndex::new(1, 0, 0), WallRock, Air), false);
    assert_eq!(networks.add(CellIndex::new(0, 0, 1), MachineStorage, WallRock), true);
    let material_before_building = networks.get_stored_resources();
    assert_eq!(networks.add(CellIndex::new(1, 0, 0), WallRock, Air), true);
    assert_eq!(networks.get_stored_resources(), material_before_building - WALL_WEIGHT)
}

#[test]
fn the_reason_a_build_is_refused_is_given() {
    let mut networks = Networks::new(CellIndex::new(0, 0, 0));
    assert_eq!(
        networks.add_with_reason(CellIndex::new(0, 0, 1), Wire, WallRock),
        Some(TransformationFailure::NotEnoughStorage)
    );
    assert_eq!(
        networks.add_with_reason(CellIndex::new(0, 0, 0), Air, MachineShip),
        Some(TransformationFailure::CanNotDeconstructShip)
    );
    assert_eq!(networks.add_with_reason(CellIndex::new(0, 0, 1), Wire, Air), None);
    assert!(networks.has_room());
}

#[test]
fn finding_nodes_among_the_networks() {
    let mut networks = Networks::new_default();
    networks.add(CellIndex::new(0, 0, 1), MachineAssembler, Air);
    networks.add(CellIndex::new(0, 0, 5), MachineDrill, Air);
    assert!(networks.is_in_ship_network(CellIndex::new(0, 0, 1)));
    assert!(!networks.is_in_ship_network(CellIndex::new(0, 0, 5)));
    assert_eq!(networks.get(CellIndex::new(0, 0, 5)).unwrap().tile, MachineDrill);
    assert!(networks.get(CellIndex::new(0, 0, 7)).is_none());
    assert!(networks.is_adjacent_to_ship_network(CellIndex::new(0, 0, 2)));
    assert!(networks.is_adjacent_to_unconnected_networks(CellIndex::new(0, 0, 6)));
    assert!(!networks.is_adjacent_to_unconnected_networks(CellIndex::new(0, 0, 8)));
    networks.update();
    networks.clear();
    assert_eq!(networks.len(), 1);
    assert_eq!(networks.get_total_air_cleaned(), 0);
    assert_eq!(networks.get_total_air_cleaned_str(), "0.00 L");
}
