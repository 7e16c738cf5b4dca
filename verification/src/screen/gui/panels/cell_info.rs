use vstd::prelude::*;
use crate::screen::gui::format_units::{decimal_string, format_unit, spec_decimal, spec_format_unit};
use crate::world::networks::network::{MAX_STORAGE_PER_STORAGE_MACHINE, POWER_PER_SOLAR_PANEL};
use crate::world::world_map::cell::{
    is_liquid_or_air, is_networkable, is_walkable_horizontal, spec_is_liquid,
    spec_is_networkable, spec_is_walkable_horizontal, Cell, TileType,
};

verus! {

/// The name of what the cell holds.
pub open spec fn spec_basic_name(cell: Cell) -> Seq<char> {
    match cell.tile_type {
        TileType::Unset => "Unset cell"@,
        TileType::WallRock => "Wall of rock"@,
        TileType::WallDirt => "Wall of dirt"@,
        TileType::FloorRock => "Floor of rock"@,
        TileType::FloorDirt => "Floor of Dirt"@,
        TileType::Stairs => "Stairs"@,
        TileType::Air => if cell.pressure <= 0 {
            "Air"@
        } else {
            "Water"@
        },
        TileType::Wire => "Wire"@,
        TileType::MachineAssembler => "Assembler machine"@,
        TileType::MachineAirCleaner => "Air cleaner machine"@,
        TileType::MachineDrill => "Drill machine"@,
        TileType::MachineSolarPanel => "Solar panel machine"@,
        TileType::MachineShip => "Spaceship"@,
        TileType::MachineStorage => "Storage machine"@,
        TileType::TreeHealthy => "Tree (Healthy)"@,
        TileType::TreeSparse => "Tree (Sparse)"@,
        TileType::TreeDying => "Tree (Dying)"@,
        TileType::TreeDead => "Tree (Dead)"@,
    }
}

/// What a machine of a network adds to it: the storage of a storage machine, the power of a
/// solar panel, the power an air cleaner takes (as much as a panel gives), the construction of
/// the ship.
pub open spec fn spec_network_effect(tile: TileType) -> Seq<Seq<char>> {
    if tile == TileType::MachineStorage {
        seq![
            "    +"@ + spec_format_unit(MAX_STORAGE_PER_STORAGE_MACHINE as int, "g"@)
                + " storage capacity"@,
        ]
    } else if tile == TileType::MachineSolarPanel {
        seq!["    +"@ + spec_format_unit(POWER_PER_SOLAR_PANEL as int, "W"@) + " power"@]
    } else if tile == TileType::MachineAirCleaner {
        seq!["    -"@ + spec_format_unit(POWER_PER_SOLAR_PANEL as int, "W"@) + " power"@]
    } else if tile == TileType::MachineShip {
        seq!["    Able to construct other machines"@]
    } else {
        Seq::empty()
    }
}

/// The lines that describe a cell: its name; that the ship can not be removed; its liquid
/// pressure where liquid can be; for a part of a network, its effect on the network (if it
/// is in one, `in_network`); for another cell, whether the ship's network can not reach it
/// (`reachable` says whether it can).
pub open spec fn spec_cell_description(cell: Cell, in_network: bool, reachable: bool) -> Seq<Seq<char>> {
    let tile = cell.tile_type;
    let name = seq![spec_basic_name(cell)];
    let ship = if tile == TileType::MachineShip {
        seq!["Can't be deconstructed"@]
    } else {
        Seq::empty()
    };
    let pressure = if tile == TileType::Air || spec_is_liquid(tile) || spec_is_walkable_horizontal(tile)
        || cell.pressure > 0 {
        seq!["  Liquid pressure: "@ + spec_decimal(cell.pressure as int) + " "@]
    } else {
        Seq::empty()
    };
    let network = if spec_is_networkable(tile) {
        seq!["  Effect on network:"@] + if in_network {
            spec_network_effect(tile)
        } else {
            Seq::empty()
        }
    } else if !reachable {
        seq!["  Networking: unreachable"@]
    } else {
        Seq::empty()
    };
    name + ship + pressure + network
}

/// The text of each line.
pub open spec fn texts_of(lines: Seq<String>) -> Seq<Seq<char>> {
    lines.map_values(|line: String| line@)
}

fn basic_name(cell: &Cell) -> (result: &'static str)
    ensures
        result@ == spec_basic_name(*cell),
{
    match cell.tile_type {
        TileType::Unset => "Unset cell",
        TileType::WallRock => "Wall of rock",
        TileType::WallDirt => "Wall of dirt",
        TileType::FloorRock => "Floor of rock",
        TileType::FloorDirt => "Floor of Dirt",
        TileType::Stairs => "Stairs",
        TileType::Air => {
            if cell.pressure <= 0 {
                "Air"
            } else {
                "Water"
            }
        },
        TileType::Wire => "Wire",
        TileType::MachineAssembler => "Assembler machine",
        TileType::MachineAirCleaner => "Air cleaner machine",
        TileType::MachineDrill => "Drill machine",
        TileType::MachineSolarPanel => "Solar panel machine",
        TileType::MachineShip => "Spaceship",
        TileType::MachineStorage => "Storage machine",
        TileType::TreeHealthy => "Tree (Healthy)",
        TileType::TreeSparse => "Tree (Sparse)",
        TileType::TreeDying => "Tree (Dying)",
        TileType::TreeDead => "Tree (Dead)",
    }
}

/// Describes a cell, one line per entry. `in_network` says whether the cell is a node of a
/// network; `reachable` whether it is next to the ship's network.
pub fn cell_to_str(cell: &Cell, in_network: bool, reachable: bool) -> (result: Vec<String>)
    ensures
        texts_of(result@) == spec_cell_description(*cell, in_network, reachable),
{
    let tile = cell.tile_type;
    let mut description: Vec<String> = Vec::new();
    description.push(String::from_str(basic_name(cell)));
    let ghost name = seq![spec_basic_name(*cell)];
    assert(texts_of(description@) =~= name);
    if tile == TileType::MachineShip {
        description.push(String::from_str("Can't be deconstructed"));
    }
    let ghost ship = if tile == TileType::MachineShip {
        seq!["Can't be deconstructed"@]
    } else {
        Seq::<Seq<char>>::empty()
    };
    assert(texts_of(description@) =~= name + ship);
    if is_liquid_or_air(tile) || is_walkable_horizontal(tile) || cell.pressure > 0 {
        let mut line = String::from_str("  Liquid pressure: ");
        let number = decimal_string(cell.pressure as i64);
        line.append(number.as_str());
        line.append(" ");
        description.push(line);
    }
    let ghost pressure = if tile == TileType::Air || spec_is_liquid(tile) || spec_is_walkable_horizontal(tile)
        || cell.pressure > 0 {
        seq!["  Liquid pressure: "@ + spec_decimal(cell.pressure as int) + " "@]
    } else {
        Seq::<Seq<char>>::empty()
    };
    assert(texts_of(description@) =~= name + ship + pressure);
    let ghost before_network = description@;
    if is_networkable(tile) {
        description.push(String::from_str("  Effect on network:"));
        if in_network {
            if tile == TileType::MachineStorage {
                let mut line = String::from_str("    +");
                line.append(format_unit(MAX_STORAGE_PER_STORAGE_MACHINE, "g").as_str());
                line.append(" storage capacity");
                description.push(line);
            } else if tile == TileType::MachineSolarPanel {
                let mut line = String::from_str("    +");
                line.append(format_unit(POWER_PER_SOLAR_PANEL, "W").as_str());
                line.append(" power");
                description.push(line);
            } else if tile == TileType::MachineAirCleaner {
                let mut line = String::from_str("    -");
                line.append(format_unit(POWER_PER_SOLAR_PANEL, "W").as_str());
                line.append(" power");
                description.push(line);
            } else if tile == TileType::MachineShip {
                description.push(String::from_str("    Able to construct other machines"));
            }
        }
    } else if !reachable {
        description.push(String::from_str("  Networking: unreachable"));
    }
    assert(texts_of(description@) =~= spec_cell_description(*cell, in_network, reachable));
    description
}

} // verus!
