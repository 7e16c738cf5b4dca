use vstd::prelude::*;
use crate::world::world_map::cell::TileType;
use crate::world::world_map::cell_set::CellSet;
use crate::world::world_map::transform_cells::{
    allowed_transformations, spec_allowed_transformations, spec_transformable, Transformation,
};
use crate::world::world_map::WorldMap;
use crate::world::TransformationTask;
use crate::screen::gui::gui_actions::GuiActions;
use crate::screen::main_scene_input::CellSelection;

verus! {

/// The label of the button that turns cells into `tile`.
pub open spec fn spec_action_str(tile: TileType) -> Seq<char> {
    match tile {
        TileType::Unset => Seq::empty(),
        TileType::WallRock => "Build rock wall"@,
        TileType::WallDirt => "Build dirt wall"@,
        TileType::FloorRock => "Flatten rock"@,
        TileType::FloorDirt => "Flatten dirt"@,
        TileType::Stairs => "Build stairs"@,
        TileType::Air => "Remove cell"@,
        TileType::Wire => "Build plumbing"@,
        TileType::MachineAssembler => "Build assembler"@,
        TileType::MachineAirCleaner => "Build air cleaner"@,
        TileType::MachineDrill => "Build drill"@,
        TileType::MachineSolarPanel => "Build solar panel"@,
        TileType::MachineShip => "Build space ship"@,
        TileType::MachineStorage => "Build storage"@,
        TileType::TreeHealthy => "Plant tree"@,
        TileType::TreeSparse => "Plant sparse tree"@,
        TileType::TreeDying => "Plant dying tree"@,
        TileType::TreeDead => "Kill tree"@,
    }
}

/// The label of the button that turns cells into `tile`. No cell is ever turned into `Unset`.
pub fn to_action_str(tile: TileType) -> (result: &'static str)
    requires
        tile != TileType::Unset,
    ensures
        result@ == spec_action_str(tile),
{
    match tile {
        TileType::Unset => "",
        TileType::WallRock => "Build rock wall",
        TileType::WallDirt => "Build dirt wall",
        TileType::FloorRock => "Flatten rock",
        TileType::FloorDirt => "Flatten dirt",
        TileType::Stairs => "Build stairs",
        TileType::Air => "Remove cell",
        TileType::Wire => "Build plumbing",
        TileType::MachineAssembler => "Build assembler",
        TileType::MachineAirCleaner => "Build air cleaner",
        TileType::MachineDrill => "Build drill",
        TileType::MachineSolarPanel => "Build solar panel",
        TileType::MachineShip => "Build space ship",
        TileType::MachineStorage => "Build storage",
        TileType::TreeHealthy => "Plant tree",
        TileType::TreeSparse => "Plant sparse tree",
        TileType::TreeDying => "Plant dying tree",
        TileType::TreeDead => "Kill tree",
    }
}

/// The lines that explain the action of turning cells into `tile`, for the tiles that have
/// an explanation.
pub open spec fn spec_tooltip_str(tile: TileType) -> Option<Seq<Seq<char>>> {
    match tile {
        TileType::FloorRock => Some(
            seq![
                "- Makes a rock floor"@,
                ""@,
                "- Disassembles machines"@,
                ""@,
                "- Uproots plants"@,
            ],
        ),
        TileType::Stairs => Some(seq!["- Gives access to"@, "  underground levels"@]),
        TileType::Wire => Some(
            seq!["- Connects machines to"@, "  be part of the"@, "  same network"@],
        ),
        TileType::MachineAirCleaner => Some(seq!["- Consumes 1KW"@]),
        TileType::MachineSolarPanel => Some(
            seq!["- Produces 1KW"@, ""@, "- Can not be built"@, "  underground"@],
        ),
        TileType::MachineStorage => Some(
            seq![
                "- Increases storage capacity"@,
                "  by 9.9 tonnes (9.9 Mg)"@,
                ""@,
                "- Increases available material"@,
                "  for construction by the"@,
                "  same amount"@,
            ],
        ),
        TileType::TreeHealthy => Some(seq!["- Toxic air will kill"@, "  the tree."@]),
        _ => None,
    }
}

/// The text of each line.
pub open spec fn lines_of(lines: Seq<&'static str>) -> Seq<Seq<char>> {
    lines.map_values(|line: &'static str| line@)
}

/// The lines that explain the action of turning cells into `tile`, if it has an explanation.
pub fn to_tooltip_str(tile: TileType) -> (result: Option<Vec<&'static str>>)
    requires
        tile != TileType::Unset,
    ensures
        match result {
            Some(lines) => spec_tooltip_str(tile) == Some(lines_of(lines@)),
            None => spec_tooltip_str(tile) is None,
        },
{
    let result = match tile {
        TileType::FloorRock => Some(
            vec![
                "- Makes a rock floor",
                "",
                "- Disassembles machines",
                "",
                "- Uproots plants",
            ],
        ),
        TileType::Stairs => Some(vec!["- Gives access to", "  underground levels"]),
        TileType::Wire => Some(vec!["- Connects machines to", "  be part of the", "  same network"]),
        TileType::MachineAirCleaner => Some(vec!["- Consumes 1KW"]),
        TileType::MachineSolarPanel => Some(
            vec!["- Produces 1KW", "", "- Can not be built", "  underground"],
        ),
        TileType::MachineStorage => Some(
            vec![
                "- Increases storage capacity",
                "  by 9.9 tonnes (9.9 Mg)",
                "",
                "- Increases available material",
                "  for construction by the",
                "  same amount",
            ],
        ),
        TileType::TreeHealthy => Some(vec!["- Toxic air will kill", "  the tree."]),
        _ => None,
    };
    proof {
        if result is Some {
            assert(lines_of(result->0@) =~= spec_tooltip_str(tile)->0);
        }
    }
    result
}

/// Every tile, in the alphabetical order of the label of the action that builds it.
pub open spec fn spec_action_order() -> Seq<TileType> {
    seq![
        TileType::Unset,
        TileType::MachineAirCleaner,
        TileType::MachineAssembler,
        TileType::WallDirt,
        TileType::MachineDrill,
        TileType::Wire,
        TileType::WallRock,
        TileType::MachineSolarPanel,
        TileType::MachineShip,
        TileType::Stairs,
        TileType::MachineStorage,
        TileType::FloorDirt,
        TileType::FloorRock,
        TileType::TreeDead,
        TileType::TreeDying,
        TileType::TreeSparse,
        TileType::TreeHealthy,
        TileType::Air,
    ]
}

/// The actions offered on a selection: the transformations allowed on its cells, one for each
/// tile, in the alphabetical order of their labels.
pub open spec fn spec_available_actions(allowed: Seq<Transformation>) -> Seq<Transformation> {
    spec_action_order().filter(|t: TileType| allowed.contains(Transformation::spec_to(t))).map_values(
        |t: TileType| Transformation::spec_to(t),
    )
}

/// Whether a transformation of `allowed` builds `tile`.
fn allows(allowed: &Vec<Transformation>, tile: TileType) -> (result: bool)
    ensures
        result == allowed@.contains(Transformation::spec_to(tile)),
{
    let mut k: usize = 0;
    while k < allowed.len()
        invariant
            k <= allowed@.len(),
            forall|i: int| 0 <= i < k ==> allowed@[i] != Transformation::spec_to(tile),
        decreases allowed@.len() - k,
    {
        if allowed[k].new_tile_type == tile {
            assert(allowed@[k as int] == Transformation::spec_to(tile));
            return true;
        }
        k = k + 1;
    }
    false
}

/// The actions offered on the cells: the transformations allowed on them, in the alphabetical
/// order of their labels.
pub fn available_actions(cells: &CellSet, map: &WorldMap) -> (result: Vec<Transformation>)
    requires
        map.wf(),
        cells.wf(),
        spec_transformable(map, cells.spec_seq()),
    ensures
        result@ == spec_available_actions(
            spec_allowed_transformations(map@, map.spec_max_cell().y as int, cells.spec_seq()),
        ),
{
    let allowed = allowed_transformations(cells, map);
    let order = vec![
        TileType::Unset,
        TileType::MachineAirCleaner,
        TileType::MachineAssembler,
        TileType::WallDirt,
        TileType::MachineDrill,
        TileType::Wire,
        TileType::WallRock,
        TileType::MachineSolarPanel,
        TileType::MachineShip,
        TileType::Stairs,
        TileType::MachineStorage,
        TileType::FloorDirt,
        TileType::FloorRock,
        TileType::TreeDead,
        TileType::TreeDying,
        TileType::TreeSparse,
        TileType::TreeHealthy,
        TileType::Air,
    ];
    assert(order@ =~= spec_action_order());
    let ghost f = |t: TileType| allowed@.contains(Transformation::spec_to(t));
    let ghost g = |t: TileType| Transformation::spec_to(t);
    let mut actions: Vec<Transformation> = Vec::new();
    let mut k: usize = 0;
    while k < order.len()
        invariant
            k <= order@.len(),
            order@ == spec_action_order(),
            forall|t: TileType| #[trigger] f(t) == allowed@.contains(Transformation::spec_to(t)),
            forall|t: TileType| #[trigger] g(t) == Transformation::spec_to(t),
            actions@ == order@.subrange(0, k as int).filter(f).map_values(g),
        decreases order@.len() - k,
    {
        let tile = order[k];
        let ghost sub = order@.subrange(0, k as int);
        proof {
            assert(order@.subrange(0, k + 1) =~= sub.push(tile));
            sub.lemma_filter_push(tile, f);
        }
        if allows(&allowed, tile) {
            actions.push(Transformation { new_tile_type: tile });
            proof {
                assert(f(tile));
                assert(sub.filter(f).push(tile).map_values(g) =~= sub.filter(f).map_values(g).push(
                    g(tile),
                ));
            }
        } else {
            proof {
                assert(!f(tile));
            }
        }
        k = k + 1;
    }
    assert(order@.subrange(0, order@.len() as int) =~= order@);
    actions
}

/// The task that clicking the `chosen`-th action button asks for: that action on the cells, if
/// there is such a button.
pub fn chosen_task(cells: &CellSet, map: &WorldMap, chosen: usize) -> (result: Option<TransformationTask>)
    requires
        map.wf(),
        cells.wf(),
        spec_transformable(map, cells.spec_seq()),
    ensures
        ({
            let actions = spec_available_actions(
                spec_allowed_transformations(map@, map.spec_max_cell().y as int, cells.spec_seq()),
            );
            match result {
                Some(task) => chosen < actions.len() && task.transformation == actions[chosen as int]
                    && task.to_transform@ == cells@ && task.to_transform.wf() && task.blocked_because is None,
                None => chosen >= actions.len(),
            }
        }),
{
    let actions = available_actions(cells, map);
    if chosen < actions.len() {
        Some(TransformationTask::new(cells.duplicate(), actions[chosen]))
    } else {
        None
    }
}

/// What the panel of available actions makes of a frame. With no cell highlighted there is no
/// panel, and no action is asked for. Else clicking the `clicked`-th action asks for it on the
/// highlighted cells (see `chosen_task`), and hovering or clicking the panel, or asking for an
/// action, drops the selection of cells.
pub fn available_transformations_actions(
    gui_actions: GuiActions,
    cells: &CellSet,
    map: &WorldMap,
    clicked: Option<usize>,
    panel_hovered_or_clicked: bool,
) -> (result: GuiActions)
    requires
        map.wf(),
        cells.wf(),
        cells@.len() > 0 ==> spec_transformable(map, cells.spec_seq()),
    ensures
        cells@.len() == 0 ==> result == (GuiActions { selected_cell_transformation: None, ..gui_actions }),
        cells@.len() > 0 ==> {
            let actions = spec_available_actions(
                spec_allowed_transformations(map@, map.spec_max_cell().y as int, cells.spec_seq()),
            );
            &&& result == (GuiActions {
                cell_selection: result.cell_selection,
                selected_cell_transformation: result.selected_cell_transformation,
                ..gui_actions
            })
            &&& match clicked {
                Some(i) => if i < actions.len() {
                    result.selected_cell_transformation matches Some(task) && task.transformation
                        == actions[i as int] && task.to_transform@ == cells@ && task.to_transform.wf()
                        && task.blocked_because is None
                } else {
                    result.selected_cell_transformation is None
                },
                None => result.selected_cell_transformation is None,
            }
            &&& result.cell_selection == if panel_hovered_or_clicked || result.selected_cell_transformation is Some {
                CellSelection::spec_no_selection()
            } else {
                gui_actions.cell_selection
            }
        },
{
    if cells.len() == 0 {
        return GuiActions { selected_cell_transformation: None, ..gui_actions };
    }
    let selected = match clicked {
        Some(i) => chosen_task(cells, map, i),
        None => None,
    };
    let cell_selection = if panel_hovered_or_clicked || selected.is_some() {
        CellSelection::no_selection()
    } else {
        gui_actions.cell_selection
    };
    GuiActions { cell_selection, selected_cell_transformation: selected, ..gui_actions }
}

} // verus!
